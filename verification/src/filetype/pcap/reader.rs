//! Reading a capture, block by block.

use super::flow;
use super::flow::TcpFlowTracker;
use super::line;
use super::line::{PcapFileState, PcapLogLine};
use super::packet;
use crate::filetype;
use crate::text;
use crate::time;
use crate::time::Timestamp;
use pcap_parser::PcapBlockOwned::{Legacy, NG};
use pcap_parser::{Block, PcapError};
use vstd::prelude::*;

verus! {

/// The number of bytes that a reader of captures holds at once.
pub const READ_BUFFER: usize = 65536;

/// The most bytes that a reader of captures in the newer format may hold at once.
pub const LARGEST_BUFFER: usize = 0x80_0000;

/// How many connections a capture keeps when it tidies up, and after how many packets
/// it does.
pub const FLOW_LIMIT: usize = 10_000;

/// A block of a capture.
#[derive(Debug)]
pub enum PcapBlock {
    /// A packet of a classic capture: seconds, microseconds and data.
    Legacy(u32, u32, Vec<u8>),
    /// The options, by code and value, of an interface.
    Interface(Vec<(u16, Vec<u8>)>),
    /// A packet with a time in ticks, in two halves, and data.
    Enhanced(u32, u32, Vec<u8>),
    /// A packet without a time.
    Simple(Vec<u8>),
    /// Anything else.
    Other,
}

/// A block of a capture, with its bytes as sequences.
pub enum BlockView {
    Legacy(u32, u32, Seq<u8>),
    Interface(Seq<(u16, Seq<u8>)>),
    Enhanced(u32, u32, Seq<u8>),
    Simple(Seq<u8>),
    Other,
}

/// The codes and values of options.
pub open spec fn option_views(v: Seq<(u16, Vec<u8>)>) -> Seq<(u16, Seq<u8>)> {
    v.map_values(|o: (u16, Vec<u8>)| (o.0, o.1@))
}

impl View for PcapBlock {
    type V = BlockView;

    open spec fn view(&self) -> BlockView {
        match self {
            PcapBlock::Legacy(sec, usec, d) => BlockView::Legacy(*sec, *usec, d@),
            PcapBlock::Interface(opts) => BlockView::Interface(option_views(opts@)),
            PcapBlock::Enhanced(high, low, d) => BlockView::Enhanced(*high, *low, d@),
            PcapBlock::Simple(d) => BlockView::Simple(d@),
            PcapBlock::Other => BlockView::Other,
        }
    }
}

/// A reader of the blocks of a capture in memory.
#[verifier::external_body]
pub struct CaptureReader<'a> {
    inner: Box<dyn pcap_parser::traits::PcapReaderIterator + 'a>,
}

/// What a reader of blocks answers.
#[derive(Debug)]
pub enum CaptureStep {
    /// The next block and the bytes it takes.
    Block(usize, PcapBlock),
    /// The reader must take in more data first.
    Incomplete,
    /// There are no more blocks, or none that can be read.
    Ended,
}

/// The blocks that a reader will still hand out, each with the bytes it takes.
pub uninterp spec fn pending_blocks(r: CaptureReader) -> Seq<(usize, BlockView)>;

/// Whether a reader must take in more data before it can go on.
pub uninterp spec fn wants_data(r: CaptureReader) -> bool;

/// Whether a reader has shown its next block, with all bytes of it in its buffer.
pub uninterp spec fn block_ready(r: CaptureReader) -> bool;

/// Whether a reader reads the newer format.
pub uninterp spec fn reads_pcapng(r: CaptureReader) -> bool;

/// The bytes that stand in the buffer of a reader, from its next block on.
pub uninterp spec fn buffered(r: CaptureReader) -> Seq<u8>;

/// How often a reader can still take in data.
pub uninterp spec fn refills_left(r: CaptureReader) -> nat;

/// The blocks of a classic capture, as `pcap_parser` reads it with a buffer of the given
/// size, or the error with which it refuses the capture.
pub uninterp spec fn legacy_blocks(d: Seq<u8>, buffer: usize) -> Result<
    Seq<(usize, BlockView)>,
    Seq<char>,
>;

/// The blocks of a capture in the newer format, as `pcap_parser` reads it with a buffer of
/// the given size, or the error with which it refuses the capture.
pub uninterp spec fn pcapng_blocks(d: Seq<u8>, buffer: usize) -> Result<
    Seq<(usize, BlockView)>,
    Seq<char>,
>;

/// Whether bytes begin with a block about a process, in either order of bytes, that is
/// shorter than the frame of a block.
pub open spec fn is_short_block(b: Seq<u8>) -> bool {
    b.len() >= 8 && {
        ||| b[0] == 0x01 && b[1] == 0 && b[2] == 0 && b[3] == 0x80 && b[4] < 12 && b[5] == 0
            && b[6] == 0 && b[7] == 0
        ||| b[0] == 0x80 && b[1] == 0 && b[2] == 0 && b[3] == 0x01 && b[4] == 0 && b[5] == 0
            && b[6] == 0 && b[7] < 12
    }
}

fn begins_short_block(b: &[u8]) -> (r: bool)
    ensures
        r == is_short_block(b@),
{
    b.len() >= 8 && ((b[0] == 0x01 && b[1] == 0 && b[2] == 0 && b[3] == 0x80 && b[4] < 12 && b[5]
        == 0 && b[6] == 0 && b[7] == 0) || (b[0] == 0x80 && b[1] == 0 && b[2] == 0 && b[3] == 0x01
        && b[4] == 0 && b[5] == 0 && b[6] == 0 && b[7] < 12))
}

/// Opens a classic capture in memory with `pcap_parser::LegacyPcapReader::new`.
///
/// Which blocks it will hand out, or why it refuses, is a function of the bytes and the
/// buffer size. Each block takes at least one byte.
#[verifier::external_body]
fn open_legacy<'a>(d: &'a [u8], buffer: usize) -> (r: Result<CaptureReader<'a>, String>)
    ensures
        match r {
            Ok(reader) => legacy_blocks(d@, buffer) == Ok::<_, Seq<char>>(pending_blocks(reader))
                && pending_blocks(reader).len() <= d@.len() && !reads_pcapng(reader),
            Err(e) => legacy_blocks(d@, buffer) == Err::<Seq<(usize, BlockView)>, _>(e@),
        },
{
    match pcap_parser::LegacyPcapReader::new(buffer, d) {
        Ok(inner) => Ok(CaptureReader { inner: Box::new(inner) }),
        Err(e) => Err(format!("{e:?}")),
    }
}

/// Opens a capture in the newer format in memory with `pcap_parser::PcapNGReader::new`.
///
/// Which blocks it will hand out, or why it refuses, is a function of the bytes and the
/// buffer size. Each block takes at least one byte. The buffer is so small that a length of
/// less than twelve, taken in the wrong order of bytes, is zero or larger than it.
#[verifier::external_body]
fn open_pcapng<'a>(d: &'a [u8], buffer: usize) -> (r: Result<CaptureReader<'a>, String>)
    requires
        buffer <= LARGEST_BUFFER,
    ensures
        match r {
            Ok(reader) => pcapng_blocks(d@, buffer) == Ok::<_, Seq<char>>(pending_blocks(reader))
                && pending_blocks(reader).len() <= d@.len() && reads_pcapng(reader),
            Err(e) => pcapng_blocks(d@, buffer) == Err::<Seq<(usize, BlockView)>, _>(e@),
        },
{
    match pcap_parser::PcapNGReader::new(buffer, d) {
        Ok(inner) => Ok(CaptureReader { inner: Box::new(inner) }),
        Err(e) => Err(format!("{e:?}")),
    }
}

/// Looks at the bytes in the buffer with `pcap_parser::traits::PcapReaderIterator::data`.
///
/// A reader of the newer format hands out no block any more once a block about a process
/// comes next that is shorter than the frame of a block.
#[verifier::external_body]
fn buffered_bytes<'b, 'a>(r: &'b CaptureReader<'a>) -> (b: &'b [u8])
    ensures
        b@ == buffered(*r),
        reads_pcapng(*r) && is_short_block(b@) ==> pending_blocks(*r).len() == 0,
{
    r.inner.data()
}

/// Looks at the next block with `pcap_parser::traits::PcapReaderIterator::next`.
///
/// A block about a process that is shorter than the frame of a block is left out: there it
/// subtracts the length of the frame from a smaller number.
///
/// A block is the first of those that the reader will still hand out, and stands in the
/// reader's buffer; the end comes when there is none; more data is asked for only while
/// there can be more. What the reader will hand out does not change.
#[verifier::external_body]
fn next_block<'a>(r: &mut CaptureReader<'a>) -> (s: CaptureStep)
    requires
        !(reads_pcapng(*old(r)) && is_short_block(buffered(*old(r)))),
    ensures
        reads_pcapng(*final(r)) == reads_pcapng(*old(r)),
        pending_blocks(*final(r)) == pending_blocks(*old(r)),
        refills_left(*final(r)) == refills_left(*old(r)),
        match s {
            CaptureStep::Block(size, b) => pending_blocks(*old(r)).len() > 0 && pending_blocks(
                *old(r),
            )[0] == (size, b@) && block_ready(*final(r)),
            CaptureStep::Incomplete => wants_data(*final(r)) && refills_left(*old(r)) > 0,
            CaptureStep::Ended => pending_blocks(*old(r)).len() == 0,
        },
{
    let (n, block) = match r.inner.next() {
        Ok(b) => b,
        Err(PcapError::Incomplete(_)) => return CaptureStep::Incomplete,
        Err(_) => return CaptureStep::Ended,
    };
    CaptureStep::Block(n, match block {
        Legacy(p) => PcapBlock::Legacy(p.ts_sec, p.ts_usec, p.data.to_vec()),
        NG(Block::InterfaceDescription(i)) => PcapBlock::Interface(
            i.options.iter().map(|o| (o.code.0, o.value.to_vec())).collect()),
        NG(Block::EnhancedPacket(e)) => PcapBlock::Enhanced(e.ts_high, e.ts_low, e.data.to_vec()),
        NG(Block::SimplePacket(s)) => PcapBlock::Simple(s.data.to_vec()),
        _ => PcapBlock::Other,
    })
}

/// Leaves the next block behind with `pcap_parser::traits::PcapReaderIterator::consume`,
/// which drops no more bytes than the buffer holds: the block must stand in it.
#[verifier::external_body]
fn consume_block<'a>(r: &mut CaptureReader<'a>, size: usize)
    requires
        block_ready(*old(r)),
        pending_blocks(*old(r)).len() > 0,
        size == pending_blocks(*old(r))[0].0,
    ensures
        reads_pcapng(*final(r)) == reads_pcapng(*old(r)),
        pending_blocks(*final(r)) == pending_blocks(*old(r)).drop_first(),
        refills_left(*final(r)) == refills_left(*old(r)),
{
    r.inner.consume(size)
}

/// Takes in more data with `pcap_parser::traits::PcapReaderIterator::refill`, which cannot
/// fail on bytes in memory. A reader that wants data can do so fewer times afterwards.
#[verifier::external_body]
fn refill<'a>(r: &mut CaptureReader<'a>)
    requires
        wants_data(*old(r)),
    ensures
        reads_pcapng(*final(r)) == reads_pcapng(*old(r)),
        pending_blocks(*final(r)) == pending_blocks(*old(r)),
        refills_left(*final(r)) < refills_left(*old(r)),
{
    let _ = r.inner.refill();
}

/// The time of a packet of a classic capture. The microseconds are taken times a
/// thousand in 32 bits.
pub open spec fn legacy_time(sec: u32, usec: u32) -> Timestamp {
    Timestamp { secs: sec as i64, nanos: ((usec * 1000) % 0x1_0000_0000) as u32 }
}

/// The time of a packet of a classic capture, where the calendar has one.
pub fn pcap_ts_to_datetime(sec: u32, usec: u32) -> (r: Option<Timestamp>)
    ensures
        r == if legacy_time(sec, usec).valid() {
            Some(legacy_time(sec, usec))
        } else {
            None
        },
{
    let nanos: u32 = usec.wrapping_mul(1000);
    assert(nanos == (usec * 1000) % 0x1_0000_0000);
    time::timestamp_opt(sec as i64, nanos)
}

/// A power of ten in 64 bits.
pub open spec fn pow10(n: nat) -> u64
    decreases n,
{
    if n == 0 {
        1
    } else {
        ((pow10((n - 1) as nat) * 10) % 0x1_0000_0000_0000_0000) as u64
    }
}

/// The ticks in a second, by the resolution of an interface: a power of two where the
/// highest bit is set, else a power of ten.
pub open spec fn tick_rate(resolution: u8) -> u64 {
    if resolution & 0x80 != 0 {
        1u64 << ((resolution & 0x7f) % 64)
    } else {
        pow10(resolution as nat)
    }
}

fn ticks_per_second(resolution: u8) -> (r: u64)
    ensures
        r == tick_rate(resolution),
{
    if resolution & 0x80 != 0 {
        1u64 << ((resolution & 0x7f) % 64)
    } else {
        let mut value: u64 = 1;
        let mut i: u8 = 0;
        while i < resolution
            invariant
                i <= resolution,
                value == pow10(i as nat),
            decreases resolution - i,
        {
            value = value.wrapping_mul(10);
            i += 1;
        }
        value
    }
}

/// The ticks in a second after the options of an interface: the last resolution counts.
pub open spec fn rate_after_options(opts: Seq<(u16, Seq<u8>)>, rate: u64) -> u64
    decreases opts.len(),
{
    if opts.len() == 0 {
        rate
    } else if opts.last().0 == 9 && opts.last().1.len() > 0 {
        tick_rate(opts.last().1[0])
    } else {
        rate_after_options(opts.drop_last(), rate)
    }
}

fn read_resolution(opts: &Vec<(u16, Vec<u8>)>, rate: u64) -> (r: u64)
    ensures
        r == rate_after_options(option_views(opts@), rate),
{
    let ghost v = option_views(opts@);
    let mut result: u64 = rate;
    let mut i: usize = 0;
    while i < opts.len()
        invariant
            i <= opts@.len(),
            v == option_views(opts@),
            result == rate_after_options(v.take(i as int), rate),
        decreases opts.len() - i,
    {
        assert(v.take(i + 1).drop_last() =~= v.take(i as int));
        assert(v.take(i + 1).last() == (opts@[i as int].0, opts@[i as int].1@));
        let opt = &opts[i];
        if opt.0 == 9 && opt.1.len() > 0 {
            result = ticks_per_second(opt.1[0]);
        }
        i += 1;
    }
    assert(v.take(i as int) =~= v);
    result
}

/// The time of a packet that counts ticks. The nanoseconds are taken in 64 bits and
/// cut to 32.
pub open spec fn tick_time(high: u32, low: u32, rate: u64) -> Timestamp {
    let ticks = high * 0x1_0000_0000 + low;
    let nanos = ((ticks % rate as int) * 1_000_000_000) % 0x1_0000_0000_0000_0000 / (rate as int);
    Timestamp { secs: (ticks / rate as int) as u64 as i64, nanos: nanos as u64 as u32 }
}

/// The time of a packet that counts ticks, where the calendar has one.
pub fn ticks_to_datetime(high: u32, low: u32, rate: u64) -> (r: Option<Timestamp>)
    requires
        rate != 0,
    ensures
        r == if tick_time(high, low, rate).valid() {
            Some(tick_time(high, low, rate))
        } else {
            None
        },
{
    let ticks: u64 = (high as u64) * 0x1_0000_0000 + (low as u64);
    let sec: u64 = ticks / rate;
    let nsec: u64 = (ticks % rate).wrapping_mul(1_000_000_000) / rate;
    time::timestamp_opt(sec as i64, nsec as u32)
}

/// The two formats of captures.
#[derive(Debug, Clone, Copy, PartialEq, Eq, Structural)]
pub enum PcapFormat {
    Legacy,
    PcapNG,
}

/// How far the reading of a capture has come: the packets that were counted, the lines, the
/// connections and the ticks in a second.
pub struct CaptureView {
    pub packets: nat,
    pub lines: Seq<(packet::PacketView, usize)>,
    pub flows: Map<flow::FlowKeyView, flow::FlowView>,
    pub rate: u64,
}

/// The packets and numbers of lines.
pub open spec fn line_views(v: Seq<PcapLogLine>) -> Seq<(packet::PacketView, usize)> {
    v.map_values(|l: PcapLogLine| (l.packet_info@, l.line_number))
}

/// The data and the time of the packet in a block, where there is one; `now` is the clock,
/// for packets without a time, and `rate` the ticks in a second.
pub open spec fn packet_in(format: PcapFormat, b: BlockView, now: Timestamp, rate: u64) -> Option<
    (Seq<u8>, Timestamp),
> {
    match (format, b) {
        (PcapFormat::Legacy, BlockView::Legacy(sec, usec, d)) => Some(
            (
                d,
                if legacy_time(sec, usec).valid() {
                    legacy_time(sec, usec)
                } else {
                    now
                },
            ),
        ),
        (PcapFormat::PcapNG, BlockView::Enhanced(high, low, d)) => Some(
            (
                d,
                if tick_time(high, low, rate).valid() {
                    tick_time(high, low, rate)
                } else {
                    now
                },
            ),
        ),
        (PcapFormat::PcapNG, BlockView::Simple(d)) => Some((d, now)),
        _ => None,
    }
}

impl CaptureView {
    /// Before the first block.
    pub open spec fn start() -> CaptureView {
        CaptureView {
            packets: 0,
            lines: Seq::empty(),
            flows: Map::empty(),
            rate: 1_000_000,
        }
    }

    /// After a packet: each is counted, and one that says something becomes a line with its
    /// number.
    pub open spec fn with_packet(self, d: Seq<u8>, t: Timestamp) -> CaptureView {
        match packet::frame_packet(d, t) {
            Some(p) => CaptureView {
                packets: self.packets + 1,
                lines: self.lines.push(
                    (flow::analyzed(self.flows, p), (self.packets + 1) as usize),
                ),
                flows: flow::flows_after(self.flows, p),
                rate: self.rate,
            },
            None => CaptureView { packets: self.packets + 1, ..self },
        }
    }

    /// After a block, before tidying up; `now` is the clock, for packets without a time.
    pub open spec fn with_block(self, format: PcapFormat, b: BlockView, now: Timestamp)
        -> CaptureView {
        match packet_in(format, b, now, self.rate) {
            Some((d, t)) => self.with_packet(d, t),
            None => match (format, b) {
                (PcapFormat::PcapNG, BlockView::Interface(opts)) => CaptureView {
                    rate: rate_after_options(opts, self.rate),
                    ..self
                },
                _ => self,
            },
        }
    }

    /// Whether `after` is what is left after tidying up. It is done after every
    /// ten thousand lines, and leaves open which connections go.
    pub open spec fn tidies_to(self, after: CaptureView) -> bool {
        &&& after.packets == self.packets
        &&& after.lines == self.lines
        &&& after.rate == self.rate
        &&& if self.lines.len() > 0 && self.lines.len() % 10_000 == 0 {
            &&& after.flows.submap_of(self.flows)
            &&& self.flows.dom().len() <= FLOW_LIMIT ==> after.flows == self.flows
            &&& self.flows.dom().len() > FLOW_LIMIT ==> after.flows.dom().len() == FLOW_LIMIT
        } else {
            after.flows == self.flows
        }
    }

    /// Whether `after` is what a block leads to.
    #[verifier::opaque]
    pub open spec fn steps_to(
        self,
        format: PcapFormat,
        b: BlockView,
        now: Timestamp,
        after: CaptureView,
    ) -> bool {
        self.with_block(format, b, now).tidies_to(after)
    }

    /// Whether a block can be read: a time in ticks needs ticks in a second.
    pub open spec fn can_read(self, format: PcapFormat, b: BlockView) -> bool {
        format == PcapFormat::PcapNG && b is Enhanced ==> self.rate != 0
    }
}

/// Reads the blocks of a capture into lines.
pub struct CaptureParser {
    packets: usize,
    lines: Vec<PcapLogLine>,
    flow_tracker: TcpFlowTracker,
    if_tsresol: u64,
}

impl View for CaptureParser {
    type V = CaptureView;

    closed spec fn view(&self) -> CaptureView {
        CaptureView {
            packets: self.packets as nat,
            lines: line_views(self.lines@),
            flows: self.flow_tracker@,
            rate: self.if_tsresol,
        }
    }
}

impl CaptureParser {
    pub closed spec fn wf(&self) -> bool {
        self.flow_tracker.wf()
    }

    pub fn new() -> (r: Self)
        ensures
            r.wf(),
            r@ == CaptureView::start(),
    {
        let r = CaptureParser {
            packets: 0,
            lines: Vec::new(),
            flow_tracker: TcpFlowTracker::new(),
            if_tsresol: 1_000_000,
        };
        assert(r@.lines =~= Seq::empty());
        r
    }

    /// The ticks in a second.
    pub fn rate(&self) -> (r: u64)
        ensures
            r == self@.rate,
    {
        self.if_tsresol
    }

    fn push_packet(&mut self, data: &Vec<u8>, timestamp: Timestamp)
        requires
            old(self).wf(),
            old(self)@.packets < usize::MAX,
        ensures
            final(self).wf(),
            final(self)@ == old(self)@.with_packet(data@, timestamp),
    {
        let ghost before = line_views(self.lines@);
        self.packets += 1;
        if let Some(mut packet_info) = packet::parse_packet_data(data.as_slice(), timestamp) {
            self.flow_tracker.analyze_packet(&mut packet_info);
            self.lines.push(PcapLogLine::new(packet_info, self.packets));
            assert(line_views(self.lines@) =~= before.push((packet_info@, self.packets)));
        }
    }

    /// Reads one block; `now` is the clock, for packets without a time.
    pub fn push_block(&mut self, format: PcapFormat, block: &PcapBlock, now: Timestamp)
        requires
            old(self).wf(),
            old(self)@.packets < usize::MAX,
            old(self)@.can_read(format, block@),
        ensures
            final(self).wf(),
            old(self)@.with_block(format, block@, now).tidies_to(final(self)@),
    {
        match format {
            PcapFormat::Legacy => {
                if let PcapBlock::Legacy(sec, usec, data) = block {
                    let timestamp = match pcap_ts_to_datetime(*sec, *usec) {
                        Some(t) => t,
                        None => now,
                    };
                    self.push_packet(data, timestamp);
                }
            },
            PcapFormat::PcapNG => match block {
                PcapBlock::Interface(opts) => {
                    self.if_tsresol = read_resolution(opts, self.if_tsresol);
                },
                PcapBlock::Enhanced(high, low, data) => {
                    let timestamp = match ticks_to_datetime(*high, *low, self.if_tsresol) {
                        Some(t) => t,
                        None => now,
                    };
                    self.push_packet(data, timestamp);
                },
                PcapBlock::Simple(data) => {
                    self.push_packet(data, now);
                },
                PcapBlock::Legacy(_, _, _) | PcapBlock::Other => {},
            },
        }
        let ghost mid = self@;
        assert(mid == old(self)@.with_block(format, block@, now));
        if self.lines.len() > 0 && self.lines.len() % 10_000 == 0 {
            self.flow_tracker.cleanup(FLOW_LIMIT);
        }
    }

    /// The lines that were read.
    pub fn into_lines(self) -> (r: Vec<PcapLogLine>)
        ensures
            line_views(r@) == self@.lines,
    {
        self.lines
    }
}

/// The ticks in a second before the block `i` of a capture in the newer format.
pub open spec fn rate_before(blocks: Seq<(usize, BlockView)>, i: int) -> u64
    decreases i,
{
    if i <= 0 {
        1_000_000
    } else {
        match blocks[i - 1].1 {
            BlockView::Interface(opts) => rate_after_options(opts, rate_before(blocks, i - 1)),
            _ => rate_before(blocks, i - 1),
        }
    }
}

/// Whether every time in ticks has ticks in a second.
pub open spec fn rates_defined(format: PcapFormat, blocks: Seq<(usize, BlockView)>) -> bool {
    format == PcapFormat::PcapNG ==> forall|i: int|
        0 <= i < blocks.len() && (#[trigger] blocks[i]).1 is Enhanced ==> rate_before(blocks, i)
            != 0
}

/// Whether `states` are the states before, between and after the blocks of a capture,
/// `nows` being what the clock says at each block.
pub open spec fn is_run(
    format: PcapFormat,
    blocks: Seq<(usize, BlockView)>,
    nows: Seq<Timestamp>,
    states: Seq<CaptureView>,
) -> bool {
    &&& states.len() == blocks.len() + 1
    &&& nows.len() == blocks.len()
    &&& states[0] == CaptureView::start()
    &&& forall|i: int|
        0 <= i < blocks.len() ==> states[i].steps_to(
            format,
            (#[trigger] blocks[i]).1,
            nows[i],
            states[i + 1],
        )
}

/// Whether `lines` can be read from the blocks of a capture.
pub open spec fn is_reading(
    format: PcapFormat,
    blocks: Seq<(usize, BlockView)>,
    lines: Seq<(packet::PacketView, usize)>,
) -> bool {
    exists|nows: Seq<Timestamp>, states: Seq<CaptureView>|
        #[trigger] is_run(format, blocks, nows, states) && states.last().lines == lines
}

/// How many packets the first `n` blocks of a capture hold.
pub open spec fn packet_count(format: PcapFormat, blocks: Seq<(usize, BlockView)>, n: int) -> nat
    decreases n,
{
    if n <= 0 {
        0
    } else {
        packet_count(format, blocks, n - 1) + if is_packet(format, blocks[n - 1].1) {
            1nat
        } else {
            0nat
        }
    }
}

/// Whether a block holds a packet.
pub open spec fn is_packet(format: PcapFormat, b: BlockView) -> bool {
    match format {
        PcapFormat::Legacy => b is Legacy,
        PcapFormat::PcapNG => b is Enhanced || b is Simple,
    }
}

/// The line of the block `i` of a capture, where it holds a packet that says something: what
/// the packet says, and its place among the packets.
pub open spec fn line_at(
    format: PcapFormat,
    blocks: Seq<(usize, BlockView)>,
    nows: Seq<Timestamp>,
    states: Seq<CaptureView>,
    i: int,
) -> Option<(packet::PacketView, usize)> {
    match packet_in(format, blocks[i].1, nows[i], states[i].rate) {
        Some((d, t)) => match packet::frame_packet(d, t) {
            Some(p) => Some(
                (
                    flow::analyzed(states[i].flows, p),
                    packet_count(format, blocks, i + 1) as usize,
                ),
            ),
            None => None,
        },
        None => None,
    }
}

/// The lines of the first `n` blocks of a capture.
pub open spec fn lines_upto(
    format: PcapFormat,
    blocks: Seq<(usize, BlockView)>,
    nows: Seq<Timestamp>,
    states: Seq<CaptureView>,
    n: int,
) -> Seq<(packet::PacketView, usize)>
    decreases n,
{
    if n <= 0 {
        Seq::empty()
    } else {
        let before = lines_upto(format, blocks, nows, states, n - 1);
        match line_at(format, blocks, nows, states, n - 1) {
            Some(line) => before.push(line),
            None => before,
        }
    }
}

/// Whether the numbers of lines grow from one to the next.
pub open spec fn numbers_grow(lines: Seq<(packet::PacketView, usize)>) -> bool {
    forall|i: int, j: int|
        0 <= i < j < lines.len() ==> (#[trigger] lines[i]).1 < (#[trigger] lines[j]).1
}

/// Each packet that says something makes one line, in the order of the capture. The number
/// of a line is the place of its packet among all packets of the capture, from 1, so numbers
/// grow from line to line.
pub proof fn lines_have_the_numbers_of_their_packets(
    format: PcapFormat,
    blocks: Seq<(usize, BlockView)>,
    nows: Seq<Timestamp>,
    states: Seq<CaptureView>,
    n: int,
)
    requires
        is_run(format, blocks, nows, states),
        blocks.len() <= usize::MAX,
        0 <= n <= blocks.len(),
    ensures
        states[n].packets == packet_count(format, blocks, n),
        packet_count(format, blocks, n) <= n,
        states[n].lines == lines_upto(format, blocks, nows, states, n),
        numbers_grow(states[n].lines),
        forall|i: int|
            0 <= i < states[n].lines.len() ==> 1 <= (#[trigger] states[n].lines[i]).1
                <= packet_count(format, blocks, n),
    decreases n,
{
    if n > 0 {
        lines_have_the_numbers_of_their_packets(format, blocks, nows, states, n - 1);
        reveal(CaptureView::steps_to);
        let before = states[n - 1];
        assert(before.steps_to(format, blocks[n - 1].1, nows[n - 1], states[n]));
        let after = before.with_block(format, blocks[n - 1].1, nows[n - 1]);
        assert(after.tidies_to(states[n]));
    }
}

/// Reads one block at the time of the clock, and says what that was.
fn read_next(parser: &mut CaptureParser, format: PcapFormat, block: &PcapBlock) -> (now: Timestamp)
    requires
        old(parser).wf(),
        old(parser)@.packets < usize::MAX,
        old(parser)@.can_read(format, block@),
    ensures
        final(parser).wf(),
        old(parser)@.steps_to(format, block@, now, final(parser)@),
        final(parser)@.packets <= old(parser)@.packets + 1,
        format == PcapFormat::PcapNG ==> final(parser)@.rate == match block@ {
            BlockView::Interface(opts) => rate_after_options(opts, old(parser)@.rate),
            _ => old(parser)@.rate,
        },
{
    let now = time::now();
    parser.push_block(format, block, now);
    proof {
        reveal(CaptureView::steps_to);
    }
    now
}

/// Reads all blocks of a capture; gives nothing where a time in ticks has no ticks in a
/// second.
fn read_blocks<'a>(reader: CaptureReader<'a>, format: PcapFormat) -> (r: Option<Vec<PcapLogLine>>)
    requires
        pending_blocks(reader).len() <= usize::MAX,
        reads_pcapng(reader) == (format == PcapFormat::PcapNG),
    ensures
        match r {
            Some(lines) => rates_defined(format, pending_blocks(reader)) && is_reading(
                format,
                pending_blocks(reader),
                line_views(lines@),
            ),
            None => !rates_defined(format, pending_blocks(reader)),
        },
{
    let mut reader = reader;
    let ghost blocks = pending_blocks(reader);
    let mut parser = CaptureParser::new();
    let ghost mut nows: Seq<Timestamp> = Seq::empty();
    let ghost mut states: Seq<CaptureView> = seq![CaptureView::start()];
    let mut done: bool = false;
    let mut timed: bool = true;
    assert(blocks.skip(0) =~= blocks);
    while !done
        invariant
            blocks.len() <= usize::MAX,
            nows.len() <= blocks.len(),
            reads_pcapng(reader) == (format == PcapFormat::PcapNG),
            pending_blocks(reader) == blocks.skip(nows.len() as int),
            !timed ==> done && !rates_defined(format, blocks),
            done && timed ==> nows.len() == blocks.len(),
            parser.wf(),
            parser@ == states.last(),
            parser@.packets <= nows.len(),
            format == PcapFormat::PcapNG ==> parser@.rate == rate_before(
                blocks,
                nows.len() as int,
            ),
            states.len() == nows.len() + 1,
            states[0] == CaptureView::start(),
            forall|i: int|
                0 <= i < nows.len() ==> states[i].steps_to(
                    format,
                    (#[trigger] blocks[i]).1,
                    nows[i],
                    states[i + 1],
                ),
            format == PcapFormat::PcapNG ==> forall|i: int|
                0 <= i < nows.len() && (#[trigger] blocks[i]).1 is Enhanced ==> rate_before(
                    blocks,
                    i,
                ) != 0,
        decreases
                if done {
                    0nat
                } else {
                    1nat
                },
                blocks.len() - nows.len(),
                refills_left(reader),
    {
        if format == PcapFormat::PcapNG && begins_short_block(buffered_bytes(&reader)) {
            assert(blocks.skip(nows.len() as int).len() == 0);
            done = true;
            continue;
        }
        match next_block(&mut reader) {
            CaptureStep::Block(size, block) => {
                let ghost k = nows.len() as int;
                assert(blocks[k] == pending_blocks(reader)[0]);
                let is_enhanced: bool = match &block {
                    PcapBlock::Enhanced(_, _, _) => true,
                    _ => false,
                };
                if is_enhanced && format == PcapFormat::PcapNG && parser.rate() == 0 {
                    assert(blocks[k].1 is Enhanced && rate_before(blocks, k) == 0);
                    timed = false;
                    done = true;
                } else {
                    let now = read_next(&mut parser, format, &block);
                    consume_block(&mut reader, size);
                    proof {
                        let old_states = states;
                        let old_nows = nows;
                        states = states.push(parser@);
                        nows = nows.push(now);
                        assert(blocks.skip(k).drop_first() =~= blocks.skip(k + 1));
                        assert forall|i: int| 0 <= i < nows.len() implies states[i].steps_to(
                            format,
                            (#[trigger] blocks[i]).1,
                            nows[i],
                            states[i + 1],
                        ) by {
                            if i < k {
                                assert(states[i] == old_states[i] && states[i + 1] == old_states[i + 1]);
                                assert(nows[i] == old_nows[i]);
                            }
                        }
                    }
                }
            },
            CaptureStep::Ended => {
                assert(blocks.skip(nows.len() as int).len() == 0);
                done = true;
            },
            CaptureStep::Incomplete => {
                refill(&mut reader);
            },
        }
    }
    if !timed {
        return None;
    }
    assert(is_run(format, blocks, nows, states));
    Some(parser.into_lines())
}

/// Why a capture cannot be read.
#[derive(Debug)]
pub enum CaptureError {
    /// There are not even the four bytes that tell the format.
    NoMagic,
    /// The first four bytes are those of no capture.
    UnknownFormat,
    /// The first block cannot be read, and why.
    Refused(PcapFormat, String),
    /// A packet counts ticks of which none fit into a second.
    NoTicks,
    /// No packet says anything.
    NoPackets,
}

impl CaptureError {
    /// The error as a message.
    pub open spec fn text(&self) -> Seq<char> {
        match self {
            CaptureError::NoMagic => "Failed to read magic"@,
            CaptureError::UnknownFormat => "Unknown pcap format"@,
            CaptureError::Refused(PcapFormat::Legacy, e) => "Failed to create pcap reader: "@ + e@,
            CaptureError::Refused(PcapFormat::PcapNG, e) => "Failed to create pcapng reader: "@
                + e@,
            CaptureError::NoTicks => "Timestamp resolution without ticks"@,
            CaptureError::NoPackets => "No valid packets found in pcap file"@,
        }
    }

    /// Writes the error as a message.
    pub fn message(&self) -> (r: String)
        ensures
            r@ == self.text(),
    {
        match self {
            CaptureError::NoMagic => String::from_str("Failed to read magic"),
            CaptureError::UnknownFormat => String::from_str("Unknown pcap format"),
            CaptureError::Refused(format, e) => {
                let mut s = String::from_str(
                    match format {
                        PcapFormat::Legacy => "Failed to create pcap reader: ",
                        PcapFormat::PcapNG => "Failed to create pcapng reader: ",
                    },
                );
                s.append(e.as_str());
                s
            },
            CaptureError::NoTicks => String::from_str("Timestamp resolution without ticks"),
            CaptureError::NoPackets => String::from_str("No valid packets found in pcap file"),
        }
    }
}

/// The format of a capture, by its first four bytes.
pub open spec fn format_of(d: Seq<u8>) -> Option<PcapFormat> {
    let m = (d[0], d[1], d[2], d[3]);
    if m == (0xd4u8, 0xc3u8, 0xb2u8, 0xa1u8) || m == (0xa1u8, 0xb2u8, 0xc3u8, 0xd4u8) || m == (
        0x4du8,
        0x3cu8,
        0xb2u8,
        0xa1u8,
    ) || m == (0xa1u8, 0xb2u8, 0x3cu8, 0x4du8) {
        Some(PcapFormat::Legacy)
    } else if m == (0x0au8, 0x0du8, 0x0du8, 0x0au8) {
        Some(PcapFormat::PcapNG)
    } else {
        None
    }
}

/// Tells the format of a capture by its first four bytes.
pub fn detect_pcap_format(data: &[u8]) -> (r: Result<PcapFormat, CaptureError>)
    ensures
        match r {
            Ok(f) => data@.len() >= 4 && format_of(data@) == Some(f),
            Err(CaptureError::NoMagic) => data@.len() < 4,
            Err(CaptureError::UnknownFormat) => data@.len() >= 4 && format_of(data@) is None,
            Err(_) => false,
        },
{
    if data.len() < 4 {
        return Err(CaptureError::NoMagic);
    }
    match (data[0], data[1], data[2], data[3]) {
        (0xd4, 0xc3, 0xb2, 0xa1) => Ok(PcapFormat::Legacy),
        (0xa1, 0xb2, 0xc3, 0xd4) => Ok(PcapFormat::Legacy),
        (0x4d, 0x3c, 0xb2, 0xa1) => Ok(PcapFormat::Legacy),
        (0xa1, 0xb2, 0x3c, 0x4d) => Ok(PcapFormat::Legacy),
        (0x0a, 0x0d, 0x0d, 0x0a) => Ok(PcapFormat::PcapNG),
        _ => Err(CaptureError::UnknownFormat),
    }
}

/// The blocks of a capture of a given format, or why it is refused.
pub open spec fn blocks_of(format: PcapFormat, d: Seq<u8>) -> Result<
    Seq<(usize, BlockView)>,
    Seq<char>,
> {
    match format {
        PcapFormat::Legacy => legacy_blocks(d, READ_BUFFER),
        PcapFormat::PcapNG => pcapng_blocks(d, READ_BUFFER),
    }
}

/// Whether the packets of a capture all have a time that can be told.
pub open spec fn is_timed(format: PcapFormat, d: Seq<u8>) -> bool {
    blocks_of(format, d) matches Ok(blocks) ==> rates_defined(format, blocks)
}

fn parse_format(format: PcapFormat, data: &[u8]) -> (r: Result<Vec<PcapLogLine>, CaptureError>)
    ensures
        match r {
            Ok(lines) => is_timed(format, data@) && (blocks_of(format, data@) matches Ok(blocks)
                && is_reading(format, blocks, line_views(lines@))),
            Err(CaptureError::Refused(f, e)) => f == format && blocks_of(format, data@) == Err::<
                Seq<(usize, BlockView)>,
                Seq<char>,
            >(e@),
            Err(CaptureError::NoTicks) => !is_timed(format, data@),
            Err(_) => false,
        },
{
    let reader = match format {
        PcapFormat::Legacy => open_legacy(data, READ_BUFFER),
        PcapFormat::PcapNG => open_pcapng(data, READ_BUFFER),
    };
    assert(data@.len() == data.len());
    match reader {
        Ok(reader) => match read_blocks(reader, format) {
            Some(lines) => Ok(lines),
            None => Err(CaptureError::NoTicks),
        },
        Err(e) => Err(CaptureError::Refused(format, e)),
    }
}

/// Reads a classic capture.
pub fn parse_legacy_pcap_to_lines(data: &[u8]) -> (r: Result<Vec<PcapLogLine>, CaptureError>)
    ensures
        match r {
            Ok(lines) => legacy_blocks(data@, READ_BUFFER) matches Ok(blocks) && is_reading(
                PcapFormat::Legacy,
                blocks,
                line_views(lines@),
            ),
            Err(CaptureError::Refused(PcapFormat::Legacy, e)) => legacy_blocks(data@, READ_BUFFER)
                == Err::<Seq<(usize, BlockView)>, Seq<char>>(e@),
            Err(_) => false,
        },
{
    parse_format(PcapFormat::Legacy, data)
}

/// Reads a capture in the newer format.
pub fn parse_pcapng_to_lines(data: &[u8]) -> (r: Result<Vec<PcapLogLine>, CaptureError>)
    requires
        is_timed(PcapFormat::PcapNG, data@),
    ensures
        match r {
            Ok(lines) => pcapng_blocks(data@, READ_BUFFER) matches Ok(blocks) && is_reading(
                PcapFormat::PcapNG,
                blocks,
                line_views(lines@),
            ),
            Err(CaptureError::Refused(PcapFormat::PcapNG, e)) => pcapng_blocks(data@, READ_BUFFER)
                == Err::<Seq<(usize, BlockView)>, Seq<char>>(e@),
            Err(_) => false,
        },
{
    parse_format(PcapFormat::PcapNG, data)
}

/// Whether `r` is what a capture of a known format gives: its lines, unless it is
/// refused or no packet says anything.
pub open spec fn is_outcome(
    format: PcapFormat,
    d: Seq<u8>,
    r: Result<Vec<PcapLogLine>, CaptureError>,
) -> bool {
    match r {
        Ok(lines) => lines@.len() > 0 && (blocks_of(format, d) matches Ok(blocks) && is_reading(
            format,
            blocks,
            line_views(lines@),
        )),
        Err(CaptureError::Refused(f, e)) => f == format && blocks_of(format, d) == Err::<
            Seq<(usize, BlockView)>,
            Seq<char>,
        >(e@),
        Err(CaptureError::NoPackets) => blocks_of(format, d) matches Ok(blocks) && is_reading(
            format,
            blocks,
            Seq::empty(),
        ),
        Err(_) => false,
    }
}

/// Reads a capture of either format.
pub fn parse_pcap_to_lines(data: &[u8]) -> (r: Result<Vec<PcapLogLine>, CaptureError>)
    requires
        data@.len() >= 4 ==> (format_of(data@) matches Some(f) ==> is_timed(f, data@)),
    ensures
        if data@.len() < 4 {
            r matches Err(CaptureError::NoMagic)
        } else {
            match format_of(data@) {
                Some(f) => is_outcome(f, data@, r),
                None => r matches Err(CaptureError::UnknownFormat),
            }
        },
{
    try_parse_pcap_to_lines(data)
}

/// Reads a capture of either format; one in which a packet counts ticks of which none
/// fit into a second is an error.
pub fn try_parse_pcap_to_lines(data: &[u8]) -> (r: Result<Vec<PcapLogLine>, CaptureError>)
    ensures
        if data@.len() < 4 {
            r matches Err(CaptureError::NoMagic)
        } else {
            match format_of(data@) {
                Some(f) => if is_timed(f, data@) {
                    is_outcome(f, data@, r)
                } else {
                    r matches Err(CaptureError::NoTicks)
                },
                None => r matches Err(CaptureError::UnknownFormat),
            }
        },
{
    let format = detect_pcap_format(data)?;
    let lines = parse_format(format, data)?;
    if lines.len() == 0 {
        assert(line_views(lines@) =~= Seq::empty());
        return Err(CaptureError::NoPackets);
    }
    Ok(lines)
}

/// A capture that was read, handed out in pieces.
pub struct PcapFileType {
    lines: Vec<PcapLogLine>,
    cursor: usize,
    file_size: u64,
}

impl PcapFileType {
    /// All lines of the capture.
    pub closed spec fn lines(&self) -> Seq<(packet::PacketView, usize)> {
        line_views(self.lines@)
    }

    /// How many lines were handed out.
    pub closed spec fn position(&self) -> nat {
        self.cursor as nat
    }

    /// The size of the file in bytes.
    pub closed spec fn size(&self) -> u64 {
        self.file_size
    }

    #[verifier::type_invariant]
    spec fn wf(&self) -> bool {
        self.cursor <= self.lines@.len()
    }

    /// Hands out lines that were read, none of them yet. The endpoints that service
    /// discovery announces in them become known; where one of its messages cannot be
    /// described, nothing is handed out.
    pub fn open(lines: Vec<PcapLogLine>, file_size: u64, state: &mut PcapFileState) -> (r: Option<
        Self,
    >)
        ensures
            final(state).simple() == old(state).simple(),
            final(state).decodings() == old(state).decodings(),
            match r {
                Some(f) => {
                    &&& forall|i: int|
                        0 <= i < lines@.len() ==> line::announcement_describable(
                            (#[trigger] lines@[i]).packet_info@,
                        )
                    &&& final(state).endpoints() == old(state).endpoints().union(
                        line::endpoint_keys(line::announced_endpoints(lines@)),
                    )
                    &&& f.lines() == line_views(lines@)
                    &&& f.position() == 0
                    &&& f.size() == file_size
                },
                None => final(state).endpoints() == old(state).endpoints() && !(forall|i: int|
                    0 <= i < lines@.len() ==> line::announcement_describable(
                        (#[trigger] lines@[i]).packet_info@,
                    )),
            },
    {
        if line::try_pre_discover_someip_endpoints(&lines, state) {
            Some(PcapFileType { lines, cursor: 0, file_size })
        } else {
            None
        }
    }

    /// Hands out the next lines, as many as are asked for and there.
    pub fn read(&mut self, lines_to_read: usize) -> (r: Vec<PcapLogLine>)
        requires
            old(self).position() + lines_to_read <= usize::MAX,
        ensures
            final(self).lines() == old(self).lines(),
            final(self).size() == old(self).size(),
            old(self).position() <= final(self).position(),
            final(self).position() == filetype::next_position(
                old(self).position() as int,
                lines_to_read,
                old(self).lines().len() as int,
            ),
            line_views(r@) == old(self).lines().subrange(
                old(self).position() as int,
                final(self).position() as int,
            ),
    {
        proof {
            use_type_invariant(&*self);
        }
        let wanted: usize = self.cursor + lines_to_read;
        let end: usize = if wanted < self.lines.len() {
            wanted
        } else {
            self.lines.len()
        };
        let mut batch: Vec<PcapLogLine> = Vec::new();
        let mut i: usize = self.cursor;
        let ghost all = line_views(self.lines@);
        assert(line_views(batch@) =~= all.subrange(i as int, i as int));
        while i < end
            invariant
                self.cursor <= i <= end <= self.lines@.len(),
                all == line_views(self.lines@),
                line_views(batch@) == all.subrange(self.cursor as int, i as int),
            decreases end - i,
        {
            let ghost before = line_views(batch@);
            let l = self.lines[i].clone();
            batch.push(l);
            assert(line_views(batch@) =~= before.push(all[i as int]));
            assert(line_views(batch@) =~= all.subrange(self.cursor as int, i + 1));
            i += 1;
        }
        self.cursor = end;
        batch
    }

    /// The number of lines that were handed out, and of all lines.
    pub fn progress(&self) -> (r: (usize, usize))
        ensures
            r.0 == self.position(),
            r.1 == self.lines().len(),
    {
        (self.cursor, self.lines.len())
    }

    /// The size of the file in bytes.
    pub fn file_size(&self) -> (r: u64)
        ensures
            r == self.size(),
    {
        self.file_size
    }
}

/// Packets of a classic capture have the time that their seconds and microseconds say.
pub proof fn classic_packets_have_their_time(
    sec: u32,
    usec: u32,
    d: Seq<u8>,
    now: Timestamp,
    rate: u64,
)
    requires
        usec < 1_000_000,
    ensures
        packet_in(PcapFormat::Legacy, BlockView::Legacy(sec, usec, d), now, rate) matches Some(
            (data, t),
        ) && {
            &&& data == d
            &&& t.secs * 1_000_000_000 + t.nanos == sec * 1_000_000_000 + usec * 1000
            &&& t.nanos < 1_000_000_000
        },
{
}

/// A packet that counts ticks has the time of its ticks since 1970, by the ticks in a second and
/// to the nanosecond below.
pub proof fn ticks_are_counted_from_1970(high: u32, low: u32, rate: u64, d: Seq<u8>, now: Timestamp)
    requires
        2 <= rate <= 10_000_000_000,
        (high * 0x1_0000_0000 + low) / (rate as int) <= time::LAST_SECOND,
    ensures
        packet_in(PcapFormat::PcapNG, BlockView::Enhanced(high, low, d), now, rate) matches Some(
            (data, t),
        ) && {
            let ticks = high * 0x1_0000_0000 + low;
            &&& data == d
            &&& t.nanos < 1_000_000_000
            &&& (t.secs * 1_000_000_000 + t.nanos) * rate <= ticks * 1_000_000_000 < (t.secs
                * 1_000_000_000 + t.nanos + 1) * rate
        },
{
    let ticks = high * 0x1_0000_0000 + low;
    let r = rate as int;
    let q = ticks / r;
    let m = ticks % r;
    assert(ticks == q * r + m && 0 <= m < r) by {
        vstd::arithmetic::div_mod::lemma_fundamental_div_mod(ticks, r);
        assert(r * q == q * r) by (nonlinear_arith);
    }
    let x = m * 1_000_000_000;
    assert(0 <= x < 10_000_000_000 * 1_000_000_000);
    assert(x % 0x1_0000_0000_0000_0000 == x);
    let n = x / r;
    assert(n * r <= x < (n + 1) * r) by {
        vstd::arithmetic::div_mod::lemma_fundamental_div_mod(x, r);
        assert(r * n == n * r) by (nonlinear_arith);
        assert((n + 1) * r == n * r + r) by (nonlinear_arith);
    }
    assert(0 <= n < 1_000_000_000) by (nonlinear_arith)
        requires
            n * r <= m * 1_000_000_000,
            m < r,
            r > 0,
            n == (m * 1_000_000_000) / r,
            m >= 0,
    ;
    let t = tick_time(high, low, rate);
    assert(0 <= q) by (nonlinear_arith)
        requires
            q == ticks / r,
            ticks >= 0,
            r > 0,
    ;
    assert(t.secs == q && t.nanos == n);
    assert((q * 1_000_000_000 + n) * r == (q * r) * 1_000_000_000 + n * r) by (nonlinear_arith);
    assert((q * 1_000_000_000 + n + 1) * r == (q * r) * 1_000_000_000 + (n + 1) * r)
        by (nonlinear_arith);
    assert(t.valid());
}

/// A packet without a time has that of the clock, and so has one whose time the calendar does
/// not have.
pub proof fn packets_without_a_time_have_that_of_the_clock(
    sec: u32,
    usec: u32,
    d: Seq<u8>,
    now: Timestamp,
    rate: u64,
)
    ensures
        packet_in(PcapFormat::PcapNG, BlockView::Simple(d), now, rate) == Some((d, now)),
        2_000_000 <= usec < 4_294_967 ==> packet_in(
            PcapFormat::Legacy,
            BlockView::Legacy(sec, usec, d),
            now,
            rate,
        ) == Some((d, now)),
        packet_in(PcapFormat::PcapNG, BlockView::Legacy(sec, usec, d), now, rate) is None,
        packet_in(PcapFormat::Legacy, BlockView::Simple(d), now, rate) is None,
        packet_in(PcapFormat::Legacy, BlockView::Enhanced(sec, usec, d), now, rate) is None,
        packet_in(PcapFormat::Legacy, BlockView::Other, now, rate) is None,
        packet_in(PcapFormat::PcapNG, BlockView::Other, now, rate) is None,
{
}

proof fn lemma_pow10(n: nat)
    requires
        n <= 19,
    ensures
        pow10(n) == vstd::arithmetic::power::pow(10, n),
        n == 19 || pow10(n) * 10 < 0x1_0000_0000_0000_0000,
    decreases n,
{
    reveal(vstd::arithmetic::power::pow);
    if n > 0 {
        lemma_pow10((n - 1) as nat);
        assert(vstd::arithmetic::power::pow(10, n) == 10 * vstd::arithmetic::power::pow(
            10,
            (n - 1) as nat,
        ));
    }
    assert(vstd::arithmetic::power::pow(10, 18) == 1_000_000_000_000_000_000) by {
        reveal_with_fuel(vstd::arithmetic::power::pow, 19);
    }
    if n < 19 {
        vstd::arithmetic::power::lemma_pow_increases(10, n, 18);
    }
}

/// The resolution of an interface says the ticks in a second: ten to that number, or two to it
/// where the highest bit is set.
pub proof fn resolutions_are_powers(resolution: u8)
    ensures
        resolution <= 19 ==> tick_rate(resolution) == vstd::arithmetic::power::pow(
            10,
            resolution as nat,
        ),
        0x80 <= resolution < 0xc0 ==> tick_rate(resolution) == vstd::arithmetic::power2::pow2(
            (resolution - 0x80) as nat,
        ),
{
    assert((resolution & 0x80 != 0) == (resolution >= 0x80)) by (bit_vector);
    if resolution <= 19 {
        lemma_pow10(resolution as nat);
    }
    if 0x80 <= resolution < 0xc0 {
        assert((resolution & 0x7f) % 64 == resolution - 0x80) by (bit_vector)
            requires
                0x80 <= resolution < 0xc0,
        ;
        let k = (resolution - 0x80) as u8;
        vstd::bits::lemma_u64_pow2_no_overflow(k as nat);
        vstd::bits::lemma_u64_shl_is_mul(1, k as u64);
        assert(1u64 << k == 1u64 << (k as u64)) by (bit_vector);
    }
}

/// Of the options of an interface the last one with a resolution counts. Where there is none
/// the ticks in a second stay as they were.
pub proof fn the_last_resolution_counts(opts: Seq<(u16, Seq<u8>)>, rate: u64, i: int)
    ensures
        (forall|k: int| 0 <= k < opts.len() ==> (#[trigger] opts[k]).0 != 9 || opts[k].1.len() == 0)
            ==> rate_after_options(opts, rate) == rate,
        0 <= i < opts.len() && opts[i].0 == 9 && opts[i].1.len() > 0 && (forall|k: int|
            i < k < opts.len() ==> (#[trigger] opts[k]).0 != 9 || opts[k].1.len() == 0)
            ==> rate_after_options(opts, rate) == tick_rate(opts[i].1[0]),
    decreases opts.len(),
{
    if opts.len() > 0 {
        let front = opts.drop_last();
        the_last_resolution_counts(front, rate, i);
        assert(forall|k: int| 0 <= k < front.len() ==> front[k] == opts[k]);
        assert(opts[opts.len() - 1] == opts.last());
    }
}

/// A capture starts with a million ticks in a second, and only an interface changes that for
/// the blocks behind it.
pub proof fn interfaces_set_the_ticks_in_a_second(
    blocks: Seq<(usize, BlockView)>,
    nows: Seq<Timestamp>,
    states: Seq<CaptureView>,
    i: int,
)
    requires
        is_run(PcapFormat::PcapNG, blocks, nows, states),
        0 <= i < blocks.len(),
    ensures
        states[0].rate == 1_000_000,
        blocks[i].1 matches BlockView::Interface(opts) ==> states[i + 1].rate == rate_after_options(
            opts,
            states[i].rate,
        ) && states[i + 1].lines == states[i].lines,
        !(blocks[i].1 is Interface) ==> states[i + 1].rate == states[i].rate,
{
    reveal(CaptureView::steps_to);
    assert(states[i].steps_to(PcapFormat::PcapNG, blocks[i].1, nows[i], states[i + 1]));
}

/// Each packet is judged by what the packets before it left: what is remembered of connections
/// goes from block to block, and nothing is forgotten while there are at most ten thousand
/// directions.
pub proof fn connections_are_remembered_from_packet_to_packet(
    format: PcapFormat,
    blocks: Seq<(usize, BlockView)>,
    nows: Seq<Timestamp>,
    states: Seq<CaptureView>,
    i: int,
    d: Seq<u8>,
    t: Timestamp,
    p: packet::PacketView,
)
    requires
        is_run(format, blocks, nows, states),
        0 <= i < blocks.len(),
        packet_in(format, blocks[i].1, nows[i], states[i].rate) == Some((d, t)),
        packet::frame_packet(d, t) == Some(p),
    ensures
        states[i + 1].lines.len() == states[i].lines.len() + 1,
        states[i + 1].lines.drop_last() == states[i].lines,
        states[i + 1].lines.last().0 == flow::analyzed(states[i].flows, p),
        states[i + 1].flows.submap_of(flow::flows_after(states[i].flows, p)),
        flow::flows_after(states[i].flows, p).dom().len() <= 10_000 ==> states[i + 1].flows
            == flow::flows_after(states[i].flows, p),
        states[0].flows == Map::<flow::FlowKeyView, flow::FlowView>::empty(),
        states[0].lines.len() == 0,
{
    reveal(CaptureView::steps_to);
    assert(states[i].steps_to(format, blocks[i].1, nows[i], states[i + 1]));
    assert(states[i + 1].lines.drop_last() =~= states[i].lines);
    let all = flow::flows_after(states[i].flows, p);
    assert(all.submap_of(all));
}

/// A capture is told by its first four bytes: a classic one by its mark in either order of
/// bytes, for times in microseconds or nanoseconds, and one of the newer format by its own.
pub proof fn captures_are_told_by_their_mark(d: Seq<u8>)
    requires
        d.len() >= 4,
    ensures
        format_of(d) == Some(PcapFormat::PcapNG) <==> d.take(4) == seq![
            0x0au8,
            0x0du8,
            0x0du8,
            0x0au8,
        ],
        format_of(d) == Some(PcapFormat::Legacy) <==> {
            ||| d.take(4) == seq![0xa1u8, 0xb2u8, 0xc3u8, 0xd4u8]
            ||| d.take(4) == seq![0xa1u8, 0xb2u8, 0x3cu8, 0x4du8]
            ||| d.take(4).reverse() == seq![0xa1u8, 0xb2u8, 0xc3u8, 0xd4u8]
            ||| d.take(4).reverse() == seq![0xa1u8, 0xb2u8, 0x3cu8, 0x4du8]
        },
{
    let m = d.take(4);
    let a = seq![0xa1u8, 0xb2u8, 0xc3u8, 0xd4u8];
    let b = seq![0xa1u8, 0xb2u8, 0x3cu8, 0x4du8];
    let c = seq![0x0au8, 0x0du8, 0x0du8, 0x0au8];
    assert(m.reverse().len() == 4 && m.reverse()[0] == m[3] && m.reverse()[1] == m[2]
        && m.reverse()[2] == m[1] && m.reverse()[3] == m[0]);
    assert((m == c) == (m[0] == 0x0a && m[1] == 0x0d && m[2] == 0x0d && m[3] == 0x0a)) by {
        if m[0] == 0x0a && m[1] == 0x0d && m[2] == 0x0d && m[3] == 0x0a {
            assert(m =~= c);
        }
    }
    assert((m == a) == (m[0] == 0xa1 && m[1] == 0xb2 && m[2] == 0xc3 && m[3] == 0xd4)) by {
        if m[0] == 0xa1 && m[1] == 0xb2 && m[2] == 0xc3 && m[3] == 0xd4 {
            assert(m =~= a);
        }
    }
    assert((m == b) == (m[0] == 0xa1 && m[1] == 0xb2 && m[2] == 0x3c && m[3] == 0x4d)) by {
        if m[0] == 0xa1 && m[1] == 0xb2 && m[2] == 0x3c && m[3] == 0x4d {
            assert(m =~= b);
        }
    }
    assert((m.reverse() == a) == (m[3] == 0xa1 && m[2] == 0xb2 && m[1] == 0xc3 && m[0] == 0xd4))
        by {
        if m[3] == 0xa1 && m[2] == 0xb2 && m[1] == 0xc3 && m[0] == 0xd4 {
            assert(m.reverse() =~= a);
        }
    }
    assert((m.reverse() == b) == (m[3] == 0xa1 && m[2] == 0xb2 && m[1] == 0x3c && m[0] == 0x4d))
        by {
        if m[3] == 0xa1 && m[2] == 0xb2 && m[1] == 0x3c && m[0] == 0x4d {
            assert(m.reverse() =~= b);
        }
    }
}

/// Every packet is counted, also one that says nothing, and a line has the number of its
/// packet. A block without a packet is not counted and makes no line.
pub proof fn every_packet_is_counted(
    format: PcapFormat,
    blocks: Seq<(usize, BlockView)>,
    nows: Seq<Timestamp>,
    states: Seq<CaptureView>,
    i: int,
)
    requires
        is_run(format, blocks, nows, states),
        0 <= i < blocks.len(),
        states[i].packets < usize::MAX,
    ensures
        states[0].packets == 0,
        states[i + 1].packets == states[i].packets + if (format is Legacy && blocks[i].1 is Legacy)
            || (format is PcapNG && (blocks[i].1 is Enhanced || blocks[i].1 is Simple)) {
            1int
        } else {
            0
        },
        states[i + 1].lines.len() <= states[i].lines.len() + 1,
        states[i + 1].lines.take(states[i].lines.len() as int) == states[i].lines,
        states[i + 1].lines.len() > states[i].lines.len() ==> {
            &&& states[i + 1].packets == states[i].packets + 1
            &&& states[i + 1].lines.last().1 == states[i + 1].packets
        },
        states[i + 1].packets == states[i].packets ==> states[i + 1].flows.submap_of(
            states[i].flows,
        ),
{
    reveal(CaptureView::steps_to);
    assert(states[i].steps_to(format, blocks[i].1, nows[i], states[i + 1]));
    assert(states[i + 1].lines.take(states[i].lines.len() as int) =~= states[i].lines);
    assert(states[i].flows.submap_of(states[i].flows));
}

/// A capture that is read gives just the lines that its blocks make, and at least one; the
/// packets that say nothing are no lines, and a capture of which no packet says anything is
/// an error. A capture is refused only where its blocks are.
pub proof fn captures_give_their_lines(
    format: PcapFormat,
    d: Seq<u8>,
    found: Result<Seq<(usize, BlockView)>, Seq<char>>,
    r: Result<Vec<PcapLogLine>, CaptureError>,
)
    requires
        is_outcome(format, d, r),
        format is Legacy ==> found == legacy_blocks(d, 65536),
        format is PcapNG ==> found == pcapng_blocks(d, 65536),
    ensures
        found matches Ok(blocks) ==> exists|nows: Seq<Timestamp>, states: Seq<CaptureView>|
            {
                &&& #[trigger] is_run(format, blocks, nows, states)
                &&& match r {
                    Ok(lines) => {
                        &&& lines@.len() == states.last().lines.len()
                        &&& lines@.len() > 0
                        &&& forall|k: int|
                            0 <= k < lines@.len() ==> {
                                &&& (#[trigger] lines@[k]).packet_info@ == states.last().lines[k].0
                                &&& lines@[k].line_number == states.last().lines[k].1
                            }
                    },
                    Err(e) => e is NoPackets && states.last().lines.len() == 0,
                }
            },
        found matches Err(why) ==> (r matches Err(CaptureError::Refused(f, e)) && f == format && e@
            == why),
{
    match found {
        Ok(blocks) => match r {
            Ok(lines) => {
                let (nows, states) = choose|nows: Seq<Timestamp>, states: Seq<CaptureView>|
                    #[trigger] is_run(format, blocks, nows, states) && states.last().lines
                        == line_views(lines@);
                assert(is_run(format, blocks, nows, states));
                assert forall|k: int| 0 <= k < lines@.len() implies {
                    &&& (#[trigger] lines@[k]).packet_info@ == states.last().lines[k].0
                    &&& lines@[k].line_number == states.last().lines[k].1
                } by {
                    assert(line_views(lines@)[k] == (lines@[k].packet_info@, lines@[k].line_number));
                }
            },
            Err(e) => {
                let none = Seq::<(packet::PacketView, usize)>::empty();
                let (nows, states) = choose|nows: Seq<Timestamp>, states: Seq<CaptureView>|
                    #[trigger] is_run(format, blocks, nows, states) && states.last().lines == none;
                assert(is_run(format, blocks, nows, states));
            },
        },
        Err(_) => {},
    }
}

/// The user is told why a capture is not read.
pub proof fn refused_captures_have_reasons(e: String)
    ensures
        CaptureError::NoMagic.text() == "Failed to read magic"@,
        CaptureError::UnknownFormat.text() == "Unknown pcap format"@,
        CaptureError::Refused(PcapFormat::Legacy, e).text() == "Failed to create pcap reader: "@
            + e@,
        CaptureError::Refused(PcapFormat::PcapNG, e).text() == "Failed to create pcapng reader: "@
            + e@,
        CaptureError::NoPackets.text() == "No valid packets found in pcap file"@,
{
}

} // verus!
