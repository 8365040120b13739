//! Loading a log file of any kind.

use crate::filetype::pcap::reader;
use vstd::prelude::*;

verus! {

/// The kinds of log files, by what they begin with.
#[derive(Debug, Clone, Copy, PartialEq, Eq, Structural)]
pub enum FileKind {
    Dlt,
    Btsnoop,
    Pcap,
    /// None of the binary kinds.
    Text,
}

/// What is done with a file once it was read.
#[derive(Debug, Clone, Copy, PartialEq, Eq, Structural)]
pub enum AfterLoad {
    /// The user cancelled the reading: the source is taken out.
    Remove,
    /// The lines are scored.
    Score,
    /// The user is told that there are no lines.
    TellNoLines,
    /// Nothing.
    Keep,
}

/// Whether bytes begin with others.
pub open spec fn begins_with(d: Seq<u8>, head: Seq<u8>) -> bool {
    d.len() >= head.len() && d.take(head.len() as int) == head
}

/// What a DLT file begins with.
pub open spec fn dlt_head() -> Seq<u8> {
    seq![0x44u8, 0x4cu8, 0x54u8, 0x01u8]
}

/// What a BTSnoop file begins with.
pub open spec fn btsnoop_head() -> Seq<u8> {
    seq![0x62u8, 0x74u8, 0x73u8, 0x6eu8, 0x6fu8, 0x6fu8, 0x70u8, 0u8]
}

/// The kind of a file, by its first bytes.
pub open spec fn kind_of(d: Seq<u8>) -> FileKind {
    if begins_with(d, dlt_head()) {
        FileKind::Dlt
    } else if begins_with(d, btsnoop_head()) {
        FileKind::Btsnoop
    } else if d.len() >= 4 && reader::format_of(d) is Some {
        FileKind::Pcap
    } else {
        FileKind::Text
    }
}

fn has_head(data: &[u8], head: &[u8]) -> (r: bool)
    ensures
        r == begins_with(data@, head@),
{
    if data.len() < head.len() {
        return false;
    }
    let mut i: usize = 0;
    while i < head.len()
        invariant
            i <= head@.len() <= data@.len(),
            forall|k: int| 0 <= k < i ==> data@[k] == head@[k],
        decreases head.len() - i,
    {
        if data[i] != head[i] {
            assert(data@.take(head@.len() as int)[i as int] == data@[i as int]);
            return false;
        }
        i += 1;
    }
    assert(data@.take(head@.len() as int) =~= head@);
    true
}

/// Loads log files.
#[derive(Debug, Clone, Copy)]
pub struct LogFileLoader;

impl LogFileLoader {
    /// Tells the kind of a file by its first bytes.
    pub fn detect(head: &[u8]) -> (r: FileKind)
        ensures
            r == kind_of(head@),
    {
        let dlt: Vec<u8> = vec![0x44, 0x4c, 0x54, 0x01];
        let btsnoop: Vec<u8> = vec![0x62, 0x74, 0x73, 0x6e, 0x6f, 0x6f, 0x70, 0];
        assert(dlt@ =~= dlt_head());
        assert(btsnoop@ =~= btsnoop_head());
        if has_head(head, dlt.as_slice()) {
            FileKind::Dlt
        } else if has_head(head, btsnoop.as_slice()) {
            FileKind::Btsnoop
        } else if reader::detect_pcap_format(head).is_ok() {
            FileKind::Pcap
        } else {
            FileKind::Text
        }
    }

    /// What the user is told where a file cannot be opened.
    pub fn open_error(error: &str) -> (r: String)
        ensures
            r@ == "Failed to open file: "@ + error@,
    {
        let mut r = String::from_str("Failed to open file: ");
        r.append(error);
        r
    }

    /// Decides what is done with a file once it was read.
    pub fn after_load(cancelled: bool, load_complete: bool, empty: bool) -> (r: AfterLoad)
        ensures
            r == if cancelled {
                AfterLoad::Remove
            } else if load_complete && !empty {
                AfterLoad::Score
            } else if empty {
                AfterLoad::TellNoLines
            } else {
                AfterLoad::Keep
            },
    {
        if cancelled {
            AfterLoad::Remove
        } else if load_complete && !empty {
            AfterLoad::Score
        } else if empty {
            AfterLoad::TellNoLines
        } else {
            AfterLoad::Keep
        }
    }

    /// Decides what is done with a file once its lines were scored.
    pub fn after_scoring(cancelled: bool) -> (r: AfterLoad)
        ensures
            r == if cancelled {
                AfterLoad::Remove
            } else {
                AfterLoad::Keep
            },
    {
        if cancelled {
            AfterLoad::Remove
        } else {
            AfterLoad::Keep
        }
    }
}

/// A file is told by its first bytes: the letters `DLT` and a one, or the letters `btsnoop`
/// and a zero. A file that begins with neither is a capture where its first four bytes are
/// a mark of one, and a text otherwise.
pub proof fn files_are_told_by_their_first_bytes(d: Seq<u8>)
    ensures
        (kind_of(d) is Dlt) == (d.len() >= 4 && d[0] == 0x44 && d[1] == 0x4c && d[2] == 0x54
            && d[3] == 1),
        (kind_of(d) is Btsnoop) == (d.len() >= 8 && d[0] == 0x62 && d[1] == 0x74 && d[2] == 0x73
            && d[3] == 0x6e && d[4] == 0x6f && d[5] == 0x6f && d[6] == 0x70 && d[7] == 0),
        d.len() >= 4 && reader::format_of(d) is Some && !(kind_of(d) is Dlt) && !(kind_of(
            d,
        ) is Btsnoop) ==> kind_of(d) is Pcap,
        kind_of(d) is Pcap ==> d.len() >= 4 && reader::format_of(d) is Some,
        d.len() < 4 ==> kind_of(d) is Text,
{
    let four = seq![0x44u8, 0x4cu8, 0x54u8, 0x01u8];
    let eight = seq![0x62u8, 0x74u8, 0x73u8, 0x6eu8, 0x6fu8, 0x6fu8, 0x70u8, 0u8];
    if d.len() >= 4 {
        let head = d.take(4);
        assert(head[0] == d[0] && head[1] == d[1] && head[2] == d[2] && head[3] == d[3]);
        if d[0] == 0x44 && d[1] == 0x4c && d[2] == 0x54 && d[3] == 1 {
            assert(head =~= four);
        }
    }
    if d.len() >= 8 {
        let head = d.take(8);
        assert(head[0] == d[0] && head[1] == d[1] && head[2] == d[2] && head[3] == d[3]);
        assert(head[4] == d[4] && head[5] == d[5] && head[6] == d[6] && head[7] == d[7]);
        if d[0] == 0x62 && d[1] == 0x74 && d[2] == 0x73 && d[3] == 0x6e && d[4] == 0x6f && d[5]
            == 0x6f && d[6] == 0x70 && d[7] == 0 {
            assert(head =~= eight);
            assert(d.take(4)[0] == 0x62);
        }
    }
}

/// What is behind the first eight bytes has no part in what a file is.
pub proof fn later_bytes_do_not_matter(d: Seq<u8>, more: Seq<u8>)
    requires
        d.len() >= 8,
    ensures
        (kind_of(d + more) is Dlt) == (kind_of(d) is Dlt),
        (kind_of(d + more) is Btsnoop) == (kind_of(d) is Btsnoop),
{
    files_are_told_by_their_first_bytes(d);
    files_are_told_by_their_first_bytes(d + more);
}

/// A file of which the reading was cancelled is taken out, whatever was read of it. Of the
/// others, one without lines is told to the user, and only one that was read to its end is
/// scored.
pub proof fn only_files_that_were_read_are_scored(
    cancelled: bool,
    load_complete: bool,
    empty: bool,
    r: AfterLoad,
)
    requires
        call_ensures(LogFileLoader::after_load, (cancelled, load_complete, empty), r),
    ensures
        (r is Remove) == cancelled,
        (r is Score) == (!cancelled && load_complete && !empty),
        (r is TellNoLines) == (!cancelled && empty),
        (r is Keep) == (!cancelled && !load_complete && !empty),
{
}

} // verus!
