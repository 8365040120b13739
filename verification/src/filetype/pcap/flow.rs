//! TCP connections: which segments are retransmitted, out of order or repeated
//! acknowledgements.

use super::packet;
use super::packet::{PacketInfo, TcpDetails};
use crate::text;
use vstd::prelude::*;

verus! {

/// One direction of a TCP connection.
#[derive(Debug)]
struct FlowKey {
    src_addr: String,
    src_port: u16,
    dst_addr: String,
    dst_port: u16,
}

/// One direction of a TCP connection, with its addresses as sequences.
pub struct FlowKeyView {
    pub src_addr: Seq<char>,
    pub src_port: u16,
    pub dst_addr: Seq<char>,
    pub dst_port: u16,
}

impl FlowKeyView {
    /// The other direction of the connection.
    pub open spec fn reversed(self) -> FlowKeyView {
        FlowKeyView {
            src_addr: self.dst_addr,
            src_port: self.dst_port,
            dst_addr: self.src_addr,
            dst_port: self.src_port,
        }
    }
}

impl View for FlowKey {
    type V = FlowKeyView;

    closed spec fn view(&self) -> FlowKeyView {
        FlowKeyView {
            src_addr: self.src_addr@,
            src_port: self.src_port,
            dst_addr: self.dst_addr@,
            dst_port: self.dst_port,
        }
    }
}

impl FlowKey {
    fn new(src_addr: String, src_port: u16, dst_addr: String, dst_port: u16) -> (r: Self)
        ensures
            r@ == (FlowKeyView { src_addr: src_addr@, src_port, dst_addr: dst_addr@, dst_port }),
    {
        FlowKey { src_addr, src_port, dst_addr, dst_port }
    }

    fn reverse(&self) -> (r: Self)
        ensures
            r@ == self@.reversed(),
    {
        FlowKey {
            src_addr: self.dst_addr.clone(),
            src_port: self.dst_port,
            dst_addr: self.src_addr.clone(),
            dst_port: self.src_port,
        }
    }

    fn same(&self, other: &FlowKey) -> (r: bool)
        ensures
            r == (self@ == other@),
    {
        self.src_port == other.src_port && self.dst_port == other.dst_port && self.src_addr
            == other.src_addr && self.dst_addr == other.dst_addr
    }
}

/// What is remembered of one direction of a connection.
#[derive(Debug)]
struct TcpFlowState {
    next_seq: u32,
    last_ack: u32,
    dup_ack_count: u8,
    recent_seqs: Vec<(u32, u32)>,
}

/// What is remembered of one direction of a connection: the sequence number that
/// should come next (zero before any data), the last acknowledgement, how often it was
/// repeated, and the number and length of up to ten segments with data.
pub struct FlowView {
    pub next_seq: u32,
    pub last_ack: u32,
    pub dup_ack_count: u8,
    pub recent_seqs: Seq<(u32, u32)>,
}

/// The sum of two sequence numbers, which count round in 32 bits.
pub open spec fn seq_sum(a: u32, b: u32) -> u32 {
    ((a + b) % 0x1_0000_0000) as u32
}

impl FlowView {
    /// A direction of which nothing was seen.
    pub open spec fn fresh() -> FlowView {
        FlowView { next_seq: 0, last_ack: 0, dup_ack_count: 0, recent_seqs: Seq::empty() }
    }

    /// Whether a segment repeats data: one of the same number and length is
    /// remembered, or it starts before the expected number and reaches past the start
    /// of a remembered one.
    pub open spec fn retransmits(self, seq: u32, len: u32) -> bool {
        len != 0 && exists|i: int|
            0 <= i < self.recent_seqs.len() && {
                ||| #[trigger] self.recent_seqs[i] == (seq, len)
                ||| seq < self.next_seq && seq_sum(seq, len) > self.recent_seqs[i].0
            }
    }

    /// Whether a segment comes before the data that should have come first.
    pub open spec fn is_ahead(self, seq: u32, len: u32) -> bool {
        len != 0 && self.next_seq != 0 && seq > self.next_seq
    }

    /// What is remembered after a segment.
    pub open spec fn after(self, seq: u32, ack: u32, len: u32, has_ack: bool) -> FlowView {
        let recent = self.recent_seqs.push((seq, len));
        FlowView {
            next_seq: if len > 0 && (self.next_seq == 0 || seq == self.next_seq) {
                seq_sum(seq, len)
            } else {
                self.next_seq
            },
            last_ack: if has_ack && !(ack == self.last_ack && len == 0) {
                ack
            } else {
                self.last_ack
            },
            dup_ack_count: if !has_ack {
                self.dup_ack_count
            } else if ack == self.last_ack && len == 0 {
                ((self.dup_ack_count + 1) % 256) as u8
            } else {
                0
            },
            recent_seqs: if len == 0 {
                self.recent_seqs
            } else if recent.len() > 10 {
                recent.drop_first()
            } else {
                recent
            },
        }
    }
}

impl View for TcpFlowState {
    type V = FlowView;

    closed spec fn view(&self) -> FlowView {
        FlowView {
            next_seq: self.next_seq,
            last_ack: self.last_ack,
            dup_ack_count: self.dup_ack_count,
            recent_seqs: self.recent_seqs@,
        }
    }
}

impl TcpFlowState {
    fn new() -> (r: Self)
        ensures
            r@ == FlowView::fresh(),
    {
        TcpFlowState { next_seq: 0, last_ack: 0, dup_ack_count: 0, recent_seqs: Vec::new() }
    }

    fn is_retransmission(&self, seq: u32, payload_len: u32) -> (r: bool)
        ensures
            r == self@.retransmits(seq, payload_len),
    {
        if payload_len == 0 {
            return false;
        }
        let end: u32 = seq.wrapping_add(payload_len);
        assert(end == seq_sum(seq, payload_len));
        let mut i: usize = 0;
        while i < self.recent_seqs.len()
            invariant
                i <= self.recent_seqs@.len(),
                payload_len != 0,
                end == seq_sum(seq, payload_len),
                forall|k: int|
                    0 <= k < i ==> {
                        &&& #[trigger] self.recent_seqs@[k] != (seq, payload_len)
                        &&& !(seq < self.next_seq && end > self.recent_seqs@[k].0)
                    },
            decreases self.recent_seqs.len() - i,
        {
            let (old_seq, old_len) = self.recent_seqs[i];
            if (seq == old_seq && payload_len == old_len) || (seq < self.next_seq && end > old_seq) {
                assert(self@.recent_seqs[i as int] == (old_seq, old_len));
                return true;
            }
            i += 1;
        }
        false
    }

    fn is_out_of_order(&self, seq: u32, payload_len: u32) -> (r: bool)
        ensures
            r == self@.is_ahead(seq, payload_len),
    {
        if payload_len == 0 || self.next_seq == 0 {
            return false;
        }
        seq > self.next_seq
    }

    fn update(&mut self, seq: u32, ack: u32, payload_len: u32, has_ack_flag: bool)
        ensures
            final(self)@ == old(self)@.after(seq, ack, payload_len, has_ack_flag),
    {
        if payload_len > 0 {
            self.recent_seqs.push((seq, payload_len));
            if self.recent_seqs.len() > 10 {
                self.recent_seqs.remove(0);
                assert(self.recent_seqs@ =~= old(self).recent_seqs@.push(
                    (seq, payload_len),
                ).drop_first());
            }
            let seq_end: u32 = seq.wrapping_add(payload_len);
            assert(seq_end == seq_sum(seq, payload_len));
            if self.next_seq == 0 || seq == self.next_seq {
                self.next_seq = seq_end;
            }
        }
        if has_ack_flag {
            if ack == self.last_ack && payload_len == 0 {
                self.dup_ack_count = self.dup_ack_count.wrapping_add(1);
            } else {
                self.dup_ack_count = 0;
                self.last_ack = ack;
            }
        }
    }

    fn copy(&self) -> (r: Self)
        ensures
            r@ == self@,
    {
        let mut recent: Vec<(u32, u32)> = Vec::new();
        let mut i: usize = 0;
        while i < self.recent_seqs.len()
            invariant
                i <= self.recent_seqs@.len(),
                recent@ == self.recent_seqs@.take(i as int),
            decreases self.recent_seqs.len() - i,
        {
            recent.push(self.recent_seqs[i]);
            assert(recent@ =~= self.recent_seqs@.take(i + 1));
            i += 1;
        }
        assert(recent@ =~= self.recent_seqs@);
        TcpFlowState {
            next_seq: self.next_seq,
            last_ack: self.last_ack,
            dup_ack_count: self.dup_ack_count,
            recent_seqs: recent,
        }
    }
}

/// What is odd about a segment, by what is remembered of its direction.
pub open spec fn anomalies(f: FlowView, t: TcpDetails) -> Seq<Seq<char>> {
    anomaly(t.flags & 0x04 != 0, "RST"@) + anomaly(
        f.retransmits(t.seq, t.payload_len),
        "Retransmission"@,
    ) + anomaly(f.is_ahead(t.seq, t.payload_len), "Out-of-Order"@) + anomaly(
        f.dup_ack_count >= 2 && t.flags & 0x10 != 0,
        "Dup ACK #"@ + text::dec(((f.dup_ack_count + 1) % 256) as nat),
    ) + anomaly(t.window == 0 && t.flags & 0x10 != 0, "ZeroWindow"@)
}

/// A list with one reason where it holds, else without any.
pub open spec fn anomaly(holds: bool, reason: Seq<char>) -> Seq<Seq<char>> {
    if holds {
        seq![reason]
    } else {
        Seq::empty()
    }
}

/// A packet marked with the reasons for which it is odd.
pub open spec fn marked(p: packet::PacketView, reasons: Seq<Seq<char>>) -> packet::PacketView {
    if reasons.len() == 0 {
        p
    } else {
        packet::PacketView {
            is_abnormal: true,
            info: p.info + " ["@ + text::join_spec(reasons, ", "@) + "]"@,
            ..p
        }
    }
}

/// The direction of a connection to which a packet belongs, where it is a TCP segment
/// with ports.
pub open spec fn flow_of(p: packet::PacketView) -> Option<FlowKeyView> {
    match (p.tcp_details, p.src_port, p.dst_port) {
        (Some(_), Some(src_port), Some(dst_port)) => Some(
            FlowKeyView { src_addr: p.src_addr, src_port, dst_addr: p.dst_addr, dst_port },
        ),
        _ => None,
    }
}

/// What is remembered of a direction, which is nothing where it is new.
pub open spec fn remembered(flows: Map<FlowKeyView, FlowView>, key: FlowKeyView) -> FlowView {
    if flows.contains_key(key) {
        flows[key]
    } else {
        FlowView::fresh()
    }
}

/// A packet as it is shown, by what is remembered before it.
pub open spec fn analyzed(
    flows: Map<FlowKeyView, FlowView>,
    p: packet::PacketView,
) -> packet::PacketView {
    match flow_of(p) {
        Some(key) => marked(p, anomalies(remembered(flows, key), p.tcp_details->0)),
        None => p,
    }
}

/// What is remembered after a packet. The end of a connection, by FIN or RST, makes
/// both directions forgotten.
pub open spec fn flows_after(
    flows: Map<FlowKeyView, FlowView>,
    p: packet::PacketView,
) -> Map<FlowKeyView, FlowView> {
    match flow_of(p) {
        Some(key) => {
            let t = p.tcp_details->0;
            if t.flags & 0x05 != 0 {
                flows.remove(key).remove(key.reversed())
            } else {
                flows.insert(
                    key,
                    remembered(flows, key).after(t.seq, t.ack, t.payload_len, t.flags & 0x10 != 0),
                )
            }
        },
        None => flows,
    }
}

/// The end of a connection makes both of its directions forgotten: what comes after it is
/// judged as if nothing had been seen.
pub proof fn ended_connections_are_forgotten(
    flows: Map<FlowKeyView, FlowView>,
    p: packet::PacketView,
    key: FlowKeyView,
)
    requires
        flow_of(p) == Some(key),
        p.tcp_details->0.flags & 0x05 != 0,
    ensures
        remembered(flows_after(flows, p), key) == FlowView::fresh(),
        remembered(flows_after(flows, p), key.reversed()) == FlowView::fresh(),
{
}

/// A packet changes what is remembered of its own connection only.
pub proof fn connections_are_judged_apart(
    flows: Map<FlowKeyView, FlowView>,
    p: packet::PacketView,
    other: FlowKeyView,
)
    requires
        flow_of(p) != Some(other),
        flow_of(p) != Some(other.reversed()),
    ensures
        remembered(flows_after(flows, p), other) == remembered(flows, other),
{
    if let Some(key) = flow_of(p) {
        assert(key.reversed().reversed() == key);
        assert(other.reversed().reversed() == other);
    }
}

/// The last ten entries of a list, or all where there are fewer.
pub open spec fn last_ten(s: Seq<(u32, u32)>) -> Seq<(u32, u32)> {
    if s.len() > 10 {
        s.skip(s.len() - 10)
    } else {
        s
    }
}

/// The last ten segments with data of a direction are remembered. One without data changes
/// neither them nor the number that should come next, and one with data changes that
/// number only where it is the one that should come or the first.
pub proof fn last_segments_are_remembered(
    f: FlowView,
    seq: u32,
    ack: u32,
    len: u32,
    has_ack: bool,
)
    requires
        f.recent_seqs.len() <= 10,
    ensures
        f.after(seq, ack, len, has_ack).recent_seqs.len() <= 10,
        f.after(seq, ack, len, has_ack).recent_seqs == if len > 0 {
            last_ten(f.recent_seqs.push((seq, len)))
        } else {
            f.recent_seqs
        },
        f.after(seq, ack, len, has_ack).next_seq == if len > 0 && (f.next_seq == 0 || f.next_seq
            == seq) {
            seq_sum(seq, len)
        } else {
            f.next_seq
        },
{
    let recent = f.recent_seqs.push((seq, len));
    assert(recent.len() > 10 ==> recent.drop_first() =~= last_ten(recent));
}

/// A segment with data that was just seen is a retransmission when it comes again. One
/// without data never is, and none is where nothing was seen.
pub proof fn repeated_segments_are_retransmissions(
    f: FlowView,
    seq: u32,
    ack: u32,
    len: u32,
    has_ack: bool,
)
    ensures
        len > 0 ==> f.after(seq, ack, len, has_ack).retransmits(seq, len),
        !f.retransmits(seq, 0),
        !FlowView::fresh().retransmits(seq, len),
{
    if len > 0 {
        let after = f.after(seq, ack, len, has_ack);
        assert(after.recent_seqs[after.recent_seqs.len() - 1] == (seq, len));
    }
}

/// A packet with data that comes twice in a row is marked as a retransmission, unless it
/// ends its connection.
pub proof fn repeated_packets_are_marked(
    flows: Map<FlowKeyView, FlowView>,
    p: packet::PacketView,
    key: FlowKeyView,
)
    requires
        flow_of(p) == Some(key),
        p.tcp_details->0.payload_len > 0,
        p.tcp_details->0.flags & 0x05 == 0,
    ensures
        anomalies(remembered(flows_after(flows, p), key), p.tcp_details->0).contains(
            "Retransmission"@,
        ),
        analyzed(flows_after(flows, p), p).is_abnormal,
{
    let t = p.tcp_details->0;
    let before = remembered(flows, key);
    repeated_segments_are_retransmissions(
        before,
        t.seq,
        t.ack,
        t.payload_len,
        t.flags & 0x10 != 0,
    );
    let f = remembered(flows_after(flows, p), key);
    let reset = anomaly(t.flags & 0x04 != 0, "RST"@);
    assert(anomalies(f, t)[reset.len() as int] == "Retransmission"@);
}

/// A segment with the ACK flag starts the count of repeated acknowledgements again where its
/// acknowledgement differs from the last one or where it carries data, and that
/// acknowledgement is then the last one. One that repeats the last acknowledgement without
/// data is counted, and one without the flag changes nothing.
pub proof fn new_acknowledgements_start_the_count_again(
    f: FlowView,
    seq: u32,
    ack: u32,
    len: u32,
    has_ack: bool,
)
    ensures
        has_ack && (ack != f.last_ack || len > 0) ==> f.after(seq, ack, len, has_ack).dup_ack_count
            == 0 && f.after(seq, ack, len, has_ack).last_ack == ack,
        has_ack && ack == f.last_ack && len == 0 && f.dup_ack_count < 255 ==> f.after(
            seq,
            ack,
            len,
            has_ack,
        ).dup_ack_count == f.dup_ack_count + 1 && f.after(seq, ack, len, has_ack).last_ack
            == ack,
        has_ack && ack == f.last_ack && len == 0 && f.dup_ack_count == 255 ==> f.after(
            seq,
            ack,
            len,
            has_ack,
        ).dup_ack_count == 0,
        !has_ack ==> f.after(seq, ack, len, has_ack).dup_ack_count == f.dup_ack_count && f.after(
            seq,
            ack,
            len,
            has_ack,
        ).last_ack == f.last_ack,
{
}

/// What is remembered of a direction after segments, from a state on.
pub open spec fn after_all(f: FlowView, segments: Seq<TcpDetails>) -> FlowView
    decreases segments.len(),
{
    if segments.len() == 0 {
        f
    } else {
        let t = segments.last();
        after_all(f, segments.drop_last()).after(
            t.seq,
            t.ack,
            t.payload_len,
            (t.flags / 16) % 2 == 1,
        )
    }
}

/// The count of repeated acknowledgements of a direction is at most the number of segments
/// since the last one with a new acknowledgement or with data. So a duplicate is told only
/// behind at least two of them, and never directly behind a new acknowledgement.
pub proof fn duplicates_are_counted_since_the_last_new_one(
    f: FlowView,
    first: TcpDetails,
    more: Seq<TcpDetails>,
)
    requires
        (first.flags / 16) % 2 == 1,
        first.ack != f.last_ack || first.payload_len > 0,
    ensures
        after_all(
            f.after(first.seq, first.ack, first.payload_len, true),
            more,
        ).dup_ack_count <= more.len(),
    decreases more.len(),
{
    if more.len() > 0 {
        duplicates_are_counted_since_the_last_new_one(f, first, more.drop_last());
    }
}

/// Where segments repeat an acknowledgement without data, the next one with the ACK flag is
/// told as a duplicate with its number, from the third repetition on.
pub proof fn repeated_acknowledgements_are_told(
    f: FlowView,
    first: TcpDetails,
    more: Seq<TcpDetails>,
    next: TcpDetails,
)
    requires
        (first.flags / 16) % 2 == 1,
        first.ack != f.last_ack || first.payload_len > 0,
        forall|i: int|
            0 <= i < more.len() ==> (#[trigger] more[i]).ack == first.ack && more[i].payload_len
                == 0 && (more[i].flags / 16) % 2 == 1,
        more.len() < 255,
        (next.flags / 16) % 2 == 1,
    ensures
        after_all(
            f.after(first.seq, first.ack, first.payload_len, true),
            more,
        ).dup_ack_count == more.len(),
        anomalies(
            after_all(f.after(first.seq, first.ack, first.payload_len, true), more),
            next,
        ).contains("Dup ACK #"@ + text::dec(more.len() + 1)) == (more.len() >= 2),
{
    lemma_repeated(f, first, more);
    let g = after_all(f.after(first.seq, first.ack, first.payload_len, true), more);
    packet::lemma_flag_bits(next.flags);
    lemma_reasons(g, next);
    let name = "Dup ACK #"@ + text::dec(more.len() + 1);
    reveal_strlit("Dup ACK #");
    reveal_strlit("RST");
    reveal_strlit("Retransmission");
    reveal_strlit("Out-of-Order");
    reveal_strlit("ZeroWindow");
    assert(name[0] == 'D');
    assert("RST"@[0] == 'R' && "Retransmission"@[0] == 'R' && "Out-of-Order"@[0] == 'O'
        && "ZeroWindow"@[0] == 'Z');
}

proof fn lemma_repeated(f: FlowView, first: TcpDetails, more: Seq<TcpDetails>)
    requires
        (first.flags / 16) % 2 == 1,
        first.ack != f.last_ack || first.payload_len > 0,
        forall|i: int|
            0 <= i < more.len() ==> (#[trigger] more[i]).ack == first.ack && more[i].payload_len
                == 0 && (more[i].flags / 16) % 2 == 1,
        more.len() < 255,
    ensures
        after_all(
            f.after(first.seq, first.ack, first.payload_len, true),
            more,
        ).dup_ack_count == more.len(),
        after_all(
            f.after(first.seq, first.ack, first.payload_len, true),
            more,
        ).last_ack == first.ack,
    decreases more.len(),
{
    if more.len() > 0 {
        let front = more.drop_last();
        assert forall|i: int| 0 <= i < front.len() implies (#[trigger] front[i]).ack == first.ack
            && front[i].payload_len == 0 && (front[i].flags / 16) % 2 == 1 by {
            assert(front[i] == more[i]);
        }
        lemma_repeated(f, first, front);
        assert(more[more.len() - 1] == more.last());
    }
}

proof fn lemma_reasons(f: FlowView, t: TcpDetails)
    ensures
        forall|name: Seq<char>| #[trigger]
            anomalies(f, t).contains(name) == ({
                ||| name == "RST"@ && t.flags & 0x04 != 0
                ||| name == "Retransmission"@ && f.retransmits(t.seq, t.payload_len)
                ||| name == "Out-of-Order"@ && f.is_ahead(t.seq, t.payload_len)
                ||| name == "Dup ACK #"@ + text::dec(((f.dup_ack_count + 1) % 256) as nat)
                    && f.dup_ack_count >= 2 && t.flags & 0x10 != 0
                ||| name == "ZeroWindow"@ && t.window == 0 && t.flags & 0x10 != 0
            }),
{
    let a = anomaly(t.flags & 0x04 != 0, "RST"@);
    let b = anomaly(f.retransmits(t.seq, t.payload_len), "Retransmission"@);
    let c = anomaly(f.is_ahead(t.seq, t.payload_len), "Out-of-Order"@);
    let dup = "Dup ACK #"@ + text::dec(((f.dup_ack_count + 1) % 256) as nat);
    let d = anomaly(f.dup_ack_count >= 2 && t.flags & 0x10 != 0, dup);
    let e = anomaly(t.window == 0 && t.flags & 0x10 != 0, "ZeroWindow"@);
    let s = anomalies(f, t);
    let n1 = a.len() as int;
    let n2 = n1 + b.len();
    let n3 = n2 + c.len();
    let n4 = n3 + d.len();
    assert(a.len() == 1 ==> s[0] == "RST"@);
    assert(b.len() == 1 ==> s[n1] == "Retransmission"@);
    assert(c.len() == 1 ==> s[n2] == "Out-of-Order"@);
    assert(d.len() == 1 ==> s[n3] == dup);
    assert(e.len() == 1 ==> s[n4] == "ZeroWindow"@);
    assert forall|name: Seq<char>| #[trigger] s.contains(name) == ({
        ||| name == "RST"@ && t.flags & 0x04 != 0
        ||| name == "Retransmission"@ && f.retransmits(t.seq, t.payload_len)
        ||| name == "Out-of-Order"@ && f.is_ahead(t.seq, t.payload_len)
        ||| name == dup && f.dup_ack_count >= 2 && t.flags & 0x10 != 0
        ||| name == "ZeroWindow"@ && t.window == 0 && t.flags & 0x10 != 0
    }) by {
        if s.contains(name) {
            let k = choose|k: int| 0 <= k < s.len() && s[k] == name;
            assert(k == 0 || k == n1 || k == n2 || k == n3 || k == n4);
        }
    }
}

/// A segment directly behind one with a new acknowledgement, of the same direction, is not
/// marked where it carries no data, resets nothing and leaves the window open.
pub proof fn segments_behind_new_acknowledgements_are_normal(
    flows: Map<FlowKeyView, FlowView>,
    p: packet::PacketView,
    next: packet::PacketView,
    key: FlowKeyView,
)
    requires
        flow_of(p) == Some(key),
        flow_of(next) == Some(key),
        (p.tcp_details->0.flags / 16) % 2 == 1,
        (p.tcp_details->0.flags / 4) % 2 == 0,
        p.tcp_details->0.flags % 2 == 0,
        flows.contains_key(key) ==> flows[key].last_ack != p.tcp_details->0.ack,
        !flows.contains_key(key) ==> p.tcp_details->0.ack != 0,
        next.tcp_details->0.payload_len == 0,
        next.tcp_details->0.window > 0,
        (next.tcp_details->0.flags / 4) % 2 == 0,
    ensures
        analyzed(flows_after(flows, p), next) == next,
{
    packet::lemma_flag_bits(p.tcp_details->0.flags);
    packet::lemma_flag_bits(next.tcp_details->0.flags);
    let f = remembered(flows_after(flows, p), key);
    assert(f.dup_ack_count == 0);
    lemma_reasons(f, next.tcp_details->0);
    let s = anomalies(f, next.tcp_details->0);
    if s.len() > 0 {
        assert(s.contains(s[0]));
    }
}

/// A segment is odd for these reasons and no others: it resets the connection; it carries data
/// of the number and length of one that is remembered, or data from before the number that
/// should come that reaches past the start of a remembered one; its data comes before that
/// which should come first; it has the ACK flag and at least two repeated acknowledgements
/// stand before it; or it has the ACK flag and closes the window. Where none of them holds the
/// packet stays as it is, and else it is marked, and nothing of it but the mark and what is
/// said of it changes.
pub proof fn odd_segments_are_marked(
    flows: Map<FlowKeyView, FlowView>,
    p: packet::PacketView,
    key: FlowKeyView,
    f: FlowView,
    t: TcpDetails,
)
    requires
        flow_of(p) == Some(key),
        p.tcp_details == Some(t),
        flows.contains_key(key),
        flows[key] == f,
    ensures
        ({
            let odd = {
                ||| (t.flags / 4) % 2 == 1
                ||| t.payload_len > 0 && f.recent_seqs.contains((t.seq, t.payload_len))
                ||| t.payload_len > 0 && t.seq < f.next_seq && exists|i: int|
                    0 <= i < f.recent_seqs.len() && (#[trigger] f.recent_seqs[i]).0 < (t.seq
                        + t.payload_len) % 0x1_0000_0000
                ||| t.payload_len > 0 && f.next_seq != 0 && t.seq > f.next_seq
                ||| (t.flags / 16) % 2 == 1 && f.dup_ack_count >= 2
                ||| (t.flags / 16) % 2 == 1 && t.window == 0
            };
            let shown = analyzed(flows, p);
            &&& !odd ==> shown == p
            &&& odd ==> shown.is_abnormal && shown.info.len() > p.info.len() + 3
            &&& shown == (packet::PacketView {
                is_abnormal: shown.is_abnormal,
                info: shown.info,
                ..p
            })
            &&& shown.info.take(p.info.len() as int) == p.info
        }),
{
    packet::lemma_flag_bits(t.flags);
    lemma_reasons(f, t);
    let s = anomalies(f, t);
    if f.retransmits(t.seq, t.payload_len) {
        let i = choose|i: int|
            0 <= i < f.recent_seqs.len() && {
                ||| #[trigger] f.recent_seqs[i] == (t.seq, t.payload_len)
                ||| t.seq < f.next_seq && seq_sum(t.seq, t.payload_len) > f.recent_seqs[i].0
            };
        assert(f.recent_seqs[i] == (t.seq, t.payload_len) ==> f.recent_seqs.contains(
            (t.seq, t.payload_len),
        ));
    }
    if t.payload_len > 0 && f.recent_seqs.contains((t.seq, t.payload_len)) {
        let i = choose|i: int|
            0 <= i < f.recent_seqs.len() && f.recent_seqs[i] == (t.seq, t.payload_len);
        assert(f.retransmits(t.seq, t.payload_len));
    }
    let shown = analyzed(flows, p);
    if s.len() == 0 {
        assert(!s.contains("RST"@));
        assert(!s.contains("Retransmission"@));
        assert(!s.contains("Out-of-Order"@));
        assert(!s.contains("ZeroWindow"@));
        assert(!s.contains("Dup ACK #"@ + text::dec(((f.dup_ack_count + 1) % 256) as nat)));
        assert(shown.info.take(p.info.len() as int) =~= p.info);
    } else {
        assert(s.contains(s[0]));
        reveal_strlit(" [");
        reveal_strlit("]");
        reveal_strlit("RST");
        reveal_strlit("Retransmission");
        reveal_strlit("Out-of-Order");
        reveal_strlit("Dup ACK #");
        reveal_strlit("ZeroWindow");
        assert(s[0].len() >= 3);
        lemma_join_len(s, ", "@);
        assert(shown.info.take(p.info.len() as int) =~= p.info);
    }
}

proof fn lemma_join_len(parts: Seq<Seq<char>>, sep: Seq<char>)
    requires
        parts.len() > 0,
    ensures
        text::join_spec(parts, sep).len() >= parts[0].len(),
    decreases parts.len(),
{
    if parts.len() > 1 {
        lemma_join_len(parts.drop_last(), sep);
    }
}

/// What a segment is odd for stands behind what is known of it, in square brackets and with
/// commas between: first that it resets the connection, then that it is a retransmission, that
/// it is out of order, that it repeats an acknowledgement and that it closes the window.
pub proof fn oddities_are_told_in_order(
    flows: Map<FlowKeyView, FlowView>,
    p: packet::PacketView,
    key: FlowKeyView,
    f: FlowView,
    t: TcpDetails,
)
    requires
        flow_of(p) == Some(key),
        p.tcp_details == Some(t),
        flows.contains_key(key),
        flows[key] == f,
    ensures
        ({
            let reset = (t.flags / 4) % 2 == 1;
            let again = f.retransmits(t.seq, t.payload_len);
            let ahead = t.payload_len > 0 && f.next_seq != 0 && t.seq > f.next_seq;
            let dup = (t.flags / 16) % 2 == 1 && f.dup_ack_count >= 2;
            let closed = (t.flags / 16) % 2 == 1 && t.window == 0;
            let number = text::dec(((f.dup_ack_count + 1) % 256) as nat);
            let info = analyzed(flows, p).info;
            &&& reset && !again && !ahead && !dup && !closed ==> info == p.info + " [RST]"@
            &&& !reset && again && !ahead && !dup && !closed ==> info == p.info
                + " [Retransmission]"@
            &&& !reset && !again && ahead && !dup && !closed ==> info == p.info
                + " [Out-of-Order]"@
            &&& !reset && !again && !ahead && dup && !closed ==> info == p.info + " [Dup ACK #"@
                + number + "]"@
            &&& !reset && !again && !ahead && !dup && closed ==> info == p.info + " [ZeroWindow]"@
            &&& reset && again && !ahead && !dup && !closed ==> info == p.info
                + " [RST, Retransmission]"@
            &&& !reset && again && !ahead && dup && !closed ==> info == p.info
                + " [Retransmission, Dup ACK #"@ + number + "]"@
            &&& !reset && !again && ahead && !dup && closed ==> info == p.info
                + " [Out-of-Order, ZeroWindow]"@
            &&& !reset && !again && !ahead && dup && closed ==> info == p.info + " [Dup ACK #"@
                + number + ", ZeroWindow]"@
        }),
{
    packet::lemma_flag_bits(t.flags);
    reveal_strlit(" [");
    reveal_strlit("]");
    reveal_strlit(", ");
    reveal_strlit("RST");
    reveal_strlit("Retransmission");
    reveal_strlit("Out-of-Order");
    reveal_strlit("Dup ACK #");
    reveal_strlit("ZeroWindow");
    reveal_strlit(" [RST]");
    reveal_strlit(" [Retransmission]");
    reveal_strlit(" [Out-of-Order]");
    reveal_strlit(" [Dup ACK #");
    reveal_strlit(" [ZeroWindow]");
    reveal_strlit(" [RST, Retransmission]");
    reveal_strlit(" [Retransmission, Dup ACK #");
    reveal_strlit(" [Out-of-Order, ZeroWindow]");
    reveal_strlit(", ZeroWindow]");
    let reset = t.flags & 0x04 != 0;
    let again = f.retransmits(t.seq, t.payload_len);
    let ahead = f.is_ahead(t.seq, t.payload_len);
    let dup = t.flags & 0x10 != 0 && f.dup_ack_count >= 2;
    let closed = t.flags & 0x10 != 0 && t.window == 0;
    let name = "Dup ACK #"@ + text::dec(((f.dup_ack_count + 1) % 256) as nat);
    let s = anomalies(f, t);
    let sep = ", "@;
    let info = analyzed(flows, p).info;
    text::joining_goes_part_by_part(seq![s[0]], sep, s[0]);
    text::joining_goes_part_by_part(seq![s[0]], sep, s[1]);
    assert(seq![s[0]].push(s[1]) =~= seq![s[0], s[1]]);
    if reset && !again && !ahead && !dup && !closed {
        assert(s =~= seq!["RST"@]);
        assert(info =~= p.info + " [RST]"@);
    }
    if !reset && again && !ahead && !dup && !closed {
        assert(s =~= seq!["Retransmission"@]);
        assert(info =~= p.info + " [Retransmission]"@);
    }
    if !reset && !again && ahead && !dup && !closed {
        assert(s =~= seq!["Out-of-Order"@]);
        assert(info =~= p.info + " [Out-of-Order]"@);
    }
    if !reset && !again && !ahead && dup && !closed {
        assert(s =~= seq![name]);
        assert(info =~= p.info + " [Dup ACK #"@ + text::dec(
            ((f.dup_ack_count + 1) % 256) as nat,
        ) + "]"@);
    }
    if !reset && !again && !ahead && !dup && closed {
        assert(s =~= seq!["ZeroWindow"@]);
        assert(info =~= p.info + " [ZeroWindow]"@);
    }
    if reset && again && !ahead && !dup && !closed {
        assert(s =~= seq!["RST"@, "Retransmission"@]);
        assert(info =~= p.info + " [RST, Retransmission]"@);
    }
    if !reset && again && !ahead && dup && !closed {
        assert(s =~= seq!["Retransmission"@, name]);
        assert(info =~= p.info + " [Retransmission, Dup ACK #"@ + text::dec(
            ((f.dup_ack_count + 1) % 256) as nat,
        ) + "]"@);
    }
    if !reset && !again && ahead && !dup && closed {
        assert(s =~= seq!["Out-of-Order"@, "ZeroWindow"@]);
        assert(info =~= p.info + " [Out-of-Order, ZeroWindow]"@);
    }
    if !reset && !again && !ahead && dup && closed {
        assert(s =~= seq![name, "ZeroWindow"@]);
        assert(info =~= p.info + " [Dup ACK #"@ + text::dec(
            ((f.dup_ack_count + 1) % 256) as nat,
        ) + ", ZeroWindow]"@);
    }
}

/// Data that comes when it should is neither a retransmission nor out of order where no
/// remembered segment has its number and length: what follows on the data before it is normal.
pub proof fn data_in_order_is_normal(f: FlowView, seq: u32, ack: u32, len: u32, has_ack: bool)
    requires
        f.next_seq == 0 || f.next_seq == seq,
        len > 0,
        (seq + len) % 0x1_0000_0000 != 0,
    ensures
        f.after(seq, ack, len, has_ack).next_seq == (seq + len) % 0x1_0000_0000,
        !f.is_ahead(seq, len),
        forall|more: u32|
            !#[trigger] f.after(seq, ack, len, has_ack).is_ahead(
                ((seq + len) % 0x1_0000_0000) as u32,
                more,
            ),
        !f.recent_seqs.contains((seq, len)) && f.next_seq == seq ==> !f.retransmits(seq, len),
        forall|gap: u32|
            gap > (seq + len) % 0x1_0000_0000 ==> #[trigger] f.after(
                seq,
                ack,
                len,
                has_ack,
            ).is_ahead(gap, 1),
{
    if f.retransmits(seq, len) && f.next_seq == seq {
        let i = choose|i: int|
            0 <= i < f.recent_seqs.len() && {
                ||| #[trigger] f.recent_seqs[i] == (seq, len)
                ||| seq < f.next_seq && seq_sum(seq, len) > f.recent_seqs[i].0
            };
        assert(f.recent_seqs[i] == (seq, len));
    }
}

/// Packets belong to one direction of a connection where their addresses and ports are the
/// same, and the other direction has them exchanged. A packet without ports, or one that is no
/// TCP segment, belongs to none: it is shown as it is, and nothing is remembered of it.
pub proof fn directions_go_by_addresses_and_ports(
    flows: Map<FlowKeyView, FlowView>,
    p: packet::PacketView,
    q: packet::PacketView,
)
    ensures
        flow_of(p) is Some == (p.tcp_details is Some && p.src_port is Some && p.dst_port is Some),
        flow_of(p) is None ==> analyzed(flows, p) == p && flows_after(flows, p) == flows,
        flow_of(p) is Some && flow_of(q) is Some ==> {
            &&& (flow_of(p) == flow_of(q)) == (p.src_addr == q.src_addr && p.dst_addr == q.dst_addr
                && p.src_port == q.src_port && p.dst_port == q.dst_port)
            &&& (flow_of(p) == Some(flow_of(q)->0.reversed())) == (p.src_addr == q.dst_addr
                && p.dst_addr == q.src_addr && p.src_port == q.dst_port && p.dst_port
                == q.src_port)
        },
{
}

/// What is remembered of a direction after a packet that does not end the connection is what
/// the packet adds to what was remembered before, and nothing is remembered of a connection at
/// its start.
pub proof fn packets_are_remembered(
    flows: Map<FlowKeyView, FlowView>,
    p: packet::PacketView,
    key: FlowKeyView,
    t: TcpDetails,
)
    requires
        flow_of(p) == Some(key),
        p.tcp_details == Some(t),
        t.flags % 2 == 0,
        (t.flags / 4) % 2 == 0,
    ensures
        flows_after(flows, p).contains_key(key),
        flows.contains_key(key) ==> flows_after(flows, p)[key] == flows[key].after(
            t.seq,
            t.ack,
            t.payload_len,
            (t.flags / 16) % 2 == 1,
        ),
        !flows.contains_key(key) ==> {
            &&& flows_after(flows, p)[key].next_seq == if t.payload_len > 0 {
                ((t.seq + t.payload_len) % 0x1_0000_0000) as u32
            } else {
                0
            }
            &&& flows_after(flows, p)[key].recent_seqs == if t.payload_len > 0 {
                seq![(t.seq, t.payload_len)]
            } else {
                Seq::empty()
            }
            &&& (t.flags / 16) % 2 == 1 && t.ack != 0 ==> flows_after(flows, p)[key].last_ack
                == t.ack && flows_after(flows, p)[key].dup_ack_count == 0
        },
{
    packet::lemma_flag_bits(t.flags);
    assert(Seq::<(u32, u32)>::empty().push((t.seq, t.payload_len)) =~= seq![
        (t.seq, t.payload_len),
    ]);
}

/// A connection ends with a FIN or a RST: both of its directions are then forgotten.
pub proof fn fin_and_rst_end_connections(
    flows: Map<FlowKeyView, FlowView>,
    p: packet::PacketView,
    key: FlowKeyView,
)
    requires
        flow_of(p) == Some(key),
        p.tcp_details->0.flags % 2 == 1 || (p.tcp_details->0.flags / 4) % 2 == 1,
    ensures
        !flows_after(flows, p).contains_key(key),
        !flows_after(flows, p).contains_key(key.reversed()),
        forall|other: FlowKeyView|
            other != key && other != key.reversed() && #[trigger] flows.contains_key(other)
                ==> flows_after(flows, p).contains_key(other) && flows_after(flows, p)[other]
                == flows[other],
{
    packet::lemma_flag_bits(p.tcp_details->0.flags);
}

/// Remembers the TCP connections of a capture.
pub struct TcpFlowTracker {
    keys: Vec<FlowKey>,
    states: Vec<TcpFlowState>,
}

impl View for TcpFlowTracker {
    type V = Map<FlowKeyView, FlowView>;

    closed spec fn view(&self) -> Map<FlowKeyView, FlowView> {
        Map::new(
            |k: FlowKeyView| exists|i: int| 0 <= i < self.keys@.len() && self.keys@[i]@ == k,
            |k: FlowKeyView|
                self.states@[choose|i: int| 0 <= i < self.keys@.len() && self.keys@[i]@ == k]@,
        )
    }
}

impl TcpFlowTracker {
    /// No direction of a connection is kept twice.
    pub closed spec fn wf(&self) -> bool {
        &&& self.keys@.len() == self.states@.len()
        &&& forall|i: int, j: int|
            0 <= i < j < self.keys@.len() ==> (#[trigger] self.keys@[i])@ != (
            #[trigger] self.keys@[j])@
    }

    proof fn lemma_count(&self)
        requires
            self.wf(),
        ensures
            self@.dom().finite(),
            self@.dom().len() == self.keys@.len(),
    {
        let ks = self.keys@.map_values(|k: FlowKey| k@);
        assert(ks.no_duplicates());
        ks.unique_seq_to_set();
        assert(self@.dom() =~= ks.to_set()) by {
            assert forall|k: FlowKeyView| self@.dom().contains(k) implies ks.to_set().contains(k) by {
                let i = choose|i: int| 0 <= i < self.keys@.len() && self.keys@[i]@ == k;
                assert(ks[i] == k);
            }
            assert forall|k: FlowKeyView| ks.to_set().contains(k) implies self@.dom().contains(k) by {
                let i = choose|i: int| 0 <= i < ks.len() && ks[i] == k;
                assert(self.keys@[i]@ == k);
            }
        }
    }

    proof fn lemma_entry(&self, i: int)
        requires
            self.wf(),
            0 <= i < self.keys@.len(),
        ensures
            self@.contains_key(self.keys@[i]@),
            self@[self.keys@[i]@] == self.states@[i]@,
    {
        let k = self.keys@[i]@;
        let j = choose|j: int| 0 <= j < self.keys@.len() && self.keys@[j]@ == k;
        assert(0 <= j < self.keys@.len() && self.keys@[j]@ == k);
        if i < j {
        } else if j < i {
        }
    }

    /// Nothing is remembered at first.
    pub fn new() -> (r: Self)
        ensures
            r.wf(),
            r@ == Map::<FlowKeyView, FlowView>::empty(),
    {
        let r = TcpFlowTracker { keys: Vec::new(), states: Vec::new() };
        assert(r@ =~= Map::<FlowKeyView, FlowView>::empty());
        r
    }

    fn find(&self, key: &FlowKey) -> (r: Option<usize>)
        requires
            self.wf(),
        ensures
            match r {
                Some(i) => i < self.keys@.len() && self.keys@[i as int]@ == key@,
                None => forall|i: int| 0 <= i < self.keys@.len() ==> (#[trigger] self.keys@[i])@
                    != key@,
            },
    {
        let mut i: usize = 0;
        while i < self.keys.len()
            invariant
                i <= self.keys@.len(),
                forall|k: int| 0 <= k < i ==> (#[trigger] self.keys@[k])@ != key@,
            decreases self.keys.len() - i,
        {
            if self.keys[i].same(key) {
                return Some(i);
            }
            i += 1;
        }
        None
    }

    fn forget(&mut self, key: &FlowKey)
        requires
            old(self).wf(),
        ensures
            final(self).wf(),
            final(self)@ == old(self)@.remove(key@),
    {
        match self.find(key) {
            Some(i) => {
                let ghost before = *self;
                self.keys.remove(i);
                self.states.remove(i);
                proof {
                    let after = *self;
                    assert forall|a: int, b: int| 0 <= a < b < after.keys@.len() implies (
                    #[trigger] after.keys@[a])@ != (#[trigger] after.keys@[b])@ by {
                        let a0 = if a < i {
                            a
                        } else {
                            a + 1
                        };
                        let b0 = if b < i {
                            b
                        } else {
                            b + 1
                        };
                        assert(before.keys@[a0]@ != before.keys@[b0]@);
                    }
                    assert(after@ =~= before@.remove(key@)) by {
                        assert forall|k: FlowKeyView| after@.contains_key(k) implies before@.remove(
                            key@,
                        ).contains_key(k) && after@[k] == before@[k] by {
                            let j = choose|j: int|
                                0 <= j < after.keys@.len() && after.keys@[j]@ == k;
                            let j0 = if j < i {
                                j
                            } else {
                                j + 1
                            };
                            assert(before.keys@[j0]@ == k);
                            before.lemma_entry(j0);
                            after.lemma_entry(j);
                            assert(before.keys@[i as int]@ == key@);
                        }
                        assert forall|k: FlowKeyView| before@.remove(key@).contains_key(
                            k,
                        ) implies after@.contains_key(k) by {
                            let j = choose|j: int|
                                0 <= j < before.keys@.len() && before.keys@[j]@ == k;
                            assert(j != i);
                            let j1 = if j < i {
                                j
                            } else {
                                j - 1
                            };
                            assert(after.keys@[j1]@ == k);
                        }
                    }
                }
            },
            None => {
                assert(self@ =~= self@.remove(key@));
            },
        }
    }

    fn remember(&mut self, key: FlowKey, state: TcpFlowState)
        requires
            old(self).wf(),
        ensures
            final(self).wf(),
            final(self)@ == old(self)@.insert(key@, state@),
    {
        let ghost before = *self;
        let ghost k0 = key@;
        let ghost s0 = state@;
        match self.find(&key) {
            Some(i) => {
                self.states.set(i, state);
                proof {
                    let after = *self;
                    assert(after.keys@ == before.keys@);
                    assert(after@ =~= before@.insert(k0, s0)) by {
                        assert forall|k: FlowKeyView| after@.contains_key(k) implies after@[k]
                            == before@.insert(k0, s0)[k] by {
                            let j = choose|j: int|
                                0 <= j < after.keys@.len() && after.keys@[j]@ == k;
                            after.lemma_entry(j);
                            before.lemma_entry(j);
                        }
                        assert(after.keys@[i as int]@ == k0);
                        assert forall|k: FlowKeyView| before@.contains_key(
                            k,
                        ) implies after@.contains_key(k) by {
                            let j = choose|j: int|
                                0 <= j < before.keys@.len() && before.keys@[j]@ == k;
                            assert(after.keys@[j]@ == k);
                        }
                        assert forall|k: FlowKeyView| after@.contains_key(k) implies before@.insert(
                            k0,
                            s0,
                        ).contains_key(k) by {
                            let j = choose|j: int|
                                0 <= j < after.keys@.len() && after.keys@[j]@ == k;
                            assert(before.keys@[j]@ == k);
                        }
                    }
                }
            },
            None => {
                self.keys.push(key);
                self.states.push(state);
                proof {
                    let after = *self;
                    let n = before.keys@.len() as int;
                    assert(after.keys@[n]@ == k0);
                    assert(forall|j: int| 0 <= j < n ==> after.keys@[j] == before.keys@[j]);
                    assert(after@ =~= before@.insert(k0, s0)) by {
                        assert forall|k: FlowKeyView| after@.contains_key(k) implies before@.insert(
                            k0,
                            s0,
                        ).contains_key(k) && after@[k] == before@.insert(k0, s0)[k] by {
                            let j = choose|j: int|
                                0 <= j < after.keys@.len() && after.keys@[j]@ == k;
                            after.lemma_entry(j);
                            if j < n {
                                assert(before.keys@[j]@ == k);
                                before.lemma_entry(j);
                            }
                        }
                        assert forall|k: FlowKeyView| before@.contains_key(
                            k,
                        ) implies after@.contains_key(k) by {
                            let j = choose|j: int|
                                0 <= j < before.keys@.len() && before.keys@[j]@ == k;
                            assert(after.keys@[j]@ == k);
                        }
                    }
                }
            },
        }
    }

    /// Marks a packet that is odd and remembers it. Only TCP segments with ports count.
    pub fn analyze_packet(&mut self, packet: &mut PacketInfo)
        requires
            old(self).wf(),
        ensures
            final(self).wf(),
            final(packet)@ == analyzed(old(self)@, old(packet)@),
            final(self)@ == flows_after(old(self)@, old(packet)@),
    {
        let tcp: TcpDetails = match packet.tcp_details {
            Some(tcp) => tcp,
            None => {
                return ;
            },
        };
        let (src_port, dst_port) = match (packet.src_port, packet.dst_port) {
            (Some(src_port), Some(dst_port)) => (src_port, dst_port),
            _ => {
                return ;
            },
        };
        let flow_key = FlowKey::new(
            packet.src_addr.clone(),
            src_port,
            packet.dst_addr.clone(),
            dst_port,
        );
        let ghost key = flow_key@;
        let mut flow_state = match self.find(&flow_key) {
            Some(i) => {
                proof {
                    self.lemma_entry(i as int);
                }
                self.states[i].copy()
            },
            None => TcpFlowState::new(),
        };
        let ghost f = flow_state@;
        assert(f == remembered(self@, key));
        let reasons = anomaly_reasons(&flow_state, &tcp);
        if reasons.len() > 0 {
            packet.is_abnormal = true;
            let mut info = packet.info.clone();
            info.append(" [");
            info.append(text::join(&reasons, ", ").as_str());
            info.append("]");
            packet.info = info;
        }
        flow_state.update(tcp.seq, tcp.ack, tcp.payload_len, tcp.flags & 0x10 != 0);
        if tcp.flags & 0x05 != 0 {
            self.forget(&flow_key);
            let reverse = flow_key.reverse();
            self.forget(&reverse);
        } else {
            self.remember(flow_key, flow_state);
        }
    }

    /// Forgets as many directions as there are more than `max_flows`. Which ones is
    /// left open.
    pub fn cleanup(&mut self, max_flows: usize)
        requires
            old(self).wf(),
        ensures
            final(self).wf(),
            final(self)@.submap_of(old(self)@),
            final(self)@.dom().finite(),
            final(self)@.dom().len() == if old(self)@.dom().len() > max_flows {
                max_flows as nat
            } else {
                old(self)@.dom().len()
            },
            old(self)@.dom().len() <= max_flows ==> final(self)@ == old(self)@,
    {
        let ghost before = *self;
        proof {
            self.lemma_count();
        }
        if self.keys.len() > max_flows {
            self.keys.truncate(max_flows);
            self.states.truncate(max_flows);
            proof {
                let after = *self;
                assert(forall|i: int| 0 <= i < max_flows ==> after.keys@[i] == before.keys@[i]);
                assert forall|k: FlowKeyView| #[trigger] after@.contains_key(
                    k,
                ) implies before@.contains_key(k) && before@[k] == after@[k] by {
                    let j = choose|j: int| 0 <= j < after.keys@.len() && after.keys@[j]@ == k;
                    assert(before.keys@[j]@ == k);
                    after.lemma_entry(j);
                    before.lemma_entry(j);
                }
                after.lemma_count();
            }
        }
    }
}

fn push_reason(reasons: &mut Vec<String>, holds: bool, reason: String)
    ensures
        text::texts(final(reasons)@) == text::texts(old(reasons)@) + anomaly(holds, reason@),
{
    if holds {
        reasons.push(reason);
    }
    assert(text::texts(reasons@) =~= text::texts(old(reasons)@) + anomaly(holds, reason@));
}

fn anomaly_reasons(flow: &TcpFlowState, tcp: &TcpDetails) -> (r: Vec<String>)
    ensures
        text::texts(r@) == anomalies(flow@, *tcp),
        r@.len() == anomalies(flow@, *tcp).len(),
{
    let mut reasons: Vec<String> = Vec::new();
    assert(text::texts(reasons@) =~= Seq::empty());
    let rst: bool = tcp.flags & 0x04 != 0;
    push_reason(&mut reasons, rst, String::from_str("RST"));
    assert(text::texts(reasons@) =~= anomaly(rst, "RST"@));
    let again: bool = flow.is_retransmission(tcp.seq, tcp.payload_len);
    push_reason(&mut reasons, again, String::from_str("Retransmission"));
    let ahead: bool = flow.is_out_of_order(tcp.seq, tcp.payload_len);
    push_reason(&mut reasons, ahead, String::from_str("Out-of-Order"));
    let mut dup = String::from_str("Dup ACK #");
    text::push_dec(&mut dup, flow.dup_ack_count.wrapping_add(1) as u64);
    let repeated: bool = flow.dup_ack_count >= 2 && tcp.flags & 0x10 != 0;
    push_reason(&mut reasons, repeated, dup);
    let full: bool = tcp.window == 0 && tcp.flags & 0x10 != 0;
    push_reason(&mut reasons, full, String::from_str("ZeroWindow"));
    proof {
        assert(text::texts(reasons@).len() == reasons@.len());
    }
    reasons
}

} // verus!
