//! DLT messages and how they are shown.

use crate::text;
use vstd::prelude::*;

verus! {

/// What the device that stored a message added to it.
#[derive(Debug)]
pub struct DltStorageHeader {
    pub seconds: u32,
    pub microseconds: u32,
    pub ecu_id: String,
}

/// Where a message comes from and of what kind it is.
#[derive(Debug)]
pub struct DltExtendedHeader {
    /// The kind of message, in words.
    pub message_type: String,
    pub application_id: String,
    pub context_id: String,
}

/// The value of an argument.
#[derive(Debug)]
pub enum DltValue {
    Text(String),
    Unsigned(u128),
    Signed(i128),
    /// A number with a fraction, in decimal.
    Float(String),
    Raw(Vec<u8>),
}

/// An argument of a message, which may have a name.
#[derive(Debug)]
pub struct DltArgument {
    pub name: Option<String>,
    pub value: DltValue,
}

/// What a message carries.
#[derive(Debug)]
pub enum DltPayload {
    Verbose(Vec<DltArgument>),
    NonVerbose(Vec<u8>),
    ControlMsg(Vec<u8>),
    /// As many pieces of a network trace.
    NetworkTrace(usize),
}

/// A DLT message.
#[derive(Debug)]
pub struct DltMessage {
    pub storage_header: Option<DltStorageHeader>,
    pub ecu_id: Option<String>,
    pub session_id: Option<u32>,
    /// The time since the start of the sender, in tenths of a millisecond.
    pub timestamp: Option<u32>,
    pub extended_header: Option<DltExtendedHeader>,
    pub payload: DltPayload,
    /// The message in full detail.
    pub detail: String,
}

/// The value of an argument as it is shown.
pub open spec fn value_text(v: DltValue) -> Seq<char> {
    match v {
        DltValue::Text(s) => s@,
        DltValue::Unsigned(n) => text::dec(n as nat),
        DltValue::Signed(i) => text::dec_int(i as int),
        DltValue::Float(s) => s@,
        DltValue::Raw(b) => text::byte_list(b@),
    }
}

fn format_value(v: &DltValue) -> (r: String)
    ensures
        r@ == value_text(*v),
{
    match v {
        DltValue::Text(s) => s.clone(),
        DltValue::Unsigned(n) => {
            let mut s = String::new();
            text::push_dec_wide(&mut s, *n);
            assert(s@ =~= text::dec(*n as nat));
            s
        },
        DltValue::Signed(i) => {
            let mut s = String::new();
            text::push_dec_int_wide(&mut s, *i);
            assert(s@ =~= text::dec_int(*i as int));
            s
        },
        DltValue::Float(s) => s.clone(),
        DltValue::Raw(b) => text::format_byte_list(b),
    }
}

/// An argument as it is shown, behind its name where it has one.
pub open spec fn argument_text(a: DltArgument) -> Seq<char> {
    match a.name {
        Some(name) => name@ + ": "@ + value_text(a.value),
        None => value_text(a.value),
    }
}

/// The arguments of a message as they are shown.
pub open spec fn argument_texts(args: Seq<DltArgument>) -> Seq<Seq<char>> {
    args.map_values(|a: DltArgument| argument_text(a))
}

/// What a message carries, as it is shown.
pub open spec fn payload_text(p: DltPayload) -> Seq<char> {
    match p {
        DltPayload::Verbose(args) => text::join_spec(argument_texts(args@), " || "@),
        DltPayload::NonVerbose(b) => text::byte_list(b@),
        DltPayload::ControlMsg(b) => "ControlMsg: "@ + text::byte_list(b@),
        DltPayload::NetworkTrace(n) => "NetworkTrace: "@ + text::dec(n as nat) + " traces"@,
    }
}

fn format_payload(p: &DltPayload) -> (r: String)
    ensures
        r@ == payload_text(*p),
{
    match p {
        DltPayload::Verbose(args) => {
            let mut parts: Vec<String> = Vec::new();
            let mut i: usize = 0;
            let ghost all = argument_texts(args@);
            assert(text::texts(parts@) =~= all.take(0));
            while i < args.len()
                invariant
                    i <= args@.len(),
                    all == argument_texts(args@),
                    text::texts(parts@) == all.take(i as int),
                decreases args.len() - i,
            {
                let value = format_value(&args[i].value);
                let t = match &args[i].name {
                    Some(name) => {
                        let mut s = name.clone();
                        s.append(": ");
                        s.append(value.as_str());
                        s
                    },
                    None => value,
                };
                let ghost before = text::texts(parts@);
                parts.push(t);
                assert(text::texts(parts@) =~= before.push(t@));
                assert(text::texts(parts@) =~= all.take(i + 1));
                i += 1;
            }
            assert(all.take(i as int) =~= all);
            text::join(&parts, " || ")
        },
        DltPayload::NonVerbose(b) => text::format_byte_list(b),
        DltPayload::ControlMsg(b) => {
            let mut s = String::from_str("ControlMsg: ");
            s.append(text::format_byte_list(b).as_str());
            s
        },
        DltPayload::NetworkTrace(n) => {
            let mut s = String::from_str("NetworkTrace: ");
            text::push_dec(&mut s, *n as u64);
            s.append(" traces");
            s
        },
    }
}

/// A message in one line: control unit, session, application, context, kind and payload.
pub open spec fn body_text(m: DltMessage) -> Seq<char> {
    let ecu = match m.ecu_id {
        Some(s) => s@,
        None => "UnknownECU"@,
    };
    let session = match m.session_id {
        Some(n) => text::dec(n as nat),
        None => text::dec(0),
    };
    let (app, ctx, kind) = match m.extended_header {
        Some(h) => (h.application_id@, h.context_id@, h.message_type@),
        None => (""@, ""@, "Unknown"@),
    };
    ecu + " "@ + session + " "@ + app + " "@ + ctx + " "@ + kind + " "@ + payload_text(m.payload)
}

impl DltMessage {
    /// Writes the message in one line.
    pub fn format_body(&self) -> (r: String)
        ensures
            r@ == body_text(*self),
    {
        let mut s = match &self.ecu_id {
            Some(ecu) => ecu.clone(),
            None => String::from_str("UnknownECU"),
        };
        s.append(" ");
        let session: u32 = match self.session_id {
            Some(n) => n,
            None => 0,
        };
        text::push_dec(&mut s, session as u64);
        s.append(" ");
        let (app, ctx, kind) = match &self.extended_header {
            Some(h) => (
                h.application_id.as_str(),
                h.context_id.as_str(),
                h.message_type.as_str(),
            ),
            None => ("", "", "Unknown"),
        };
        s.append(app);
        s.append(" ");
        s.append(ctx);
        s.append(" ");
        s.append(kind);
        s.append(" ");
        s.append(format_payload(&self.payload).as_str());
        s
    }
}

/// A message is shown by its control unit, its session, its application, its context, its kind
/// and what it carries, with spaces between them; what it does not say has a stand-in.
pub proof fn messages_are_shown_by_their_parts(m: DltMessage)
    ensures
        ({
            let ecu = if m.ecu_id is Some {
                m.ecu_id->0@
            } else {
                "UnknownECU"@
            };
            let session = if m.session_id is Some {
                text::dec(m.session_id->0 as nat)
            } else {
                "0"@
            };
            let carried = payload_text(m.payload);
            &&& m.extended_header matches Some(h) ==> body_text(m) == text::join_spec(
                seq![ecu, session, h.application_id@, h.context_id@, h.message_type@, carried],
                " "@,
            )
            &&& m.extended_header is None ==> body_text(m) == text::join_spec(
                seq![ecu, session, Seq::empty(), Seq::empty(), "Unknown"@, carried],
                " "@,
            )
        }),
{
    reveal_strlit("");
    reveal_strlit("0");
    assert("0"@ =~= text::dec(0));
    let ecu = if m.ecu_id is Some {
        m.ecu_id->0@
    } else {
        "UnknownECU"@
    };
    let session = if m.session_id is Some {
        text::dec(m.session_id->0 as nat)
    } else {
        "0"@
    };
    let carried = payload_text(m.payload);
    let (app, ctx, kind) = match m.extended_header {
        Some(h) => (h.application_id@, h.context_id@, h.message_type@),
        None => (Seq::empty(), Seq::empty(), "Unknown"@),
    };
    let sep = " "@;
    text::joining_goes_part_by_part(seq![ecu], sep, ecu);
    text::joining_goes_part_by_part(seq![ecu], sep, session);
    assert(seq![ecu].push(session) =~= seq![ecu, session]);
    text::joining_goes_part_by_part(seq![ecu, session], sep, app);
    assert(seq![ecu, session].push(app) =~= seq![ecu, session, app]);
    text::joining_goes_part_by_part(seq![ecu, session, app], sep, ctx);
    assert(seq![ecu, session, app].push(ctx) =~= seq![ecu, session, app, ctx]);
    text::joining_goes_part_by_part(seq![ecu, session, app, ctx], sep, kind);
    assert(seq![ecu, session, app, ctx].push(kind) =~= seq![ecu, session, app, ctx, kind]);
    text::joining_goes_part_by_part(seq![ecu, session, app, ctx, kind], sep, carried);
    assert(seq![ecu, session, app, ctx, kind].push(carried) =~= seq![
        ecu,
        session,
        app,
        ctx,
        kind,
        carried,
    ]);
    assert(""@ =~= Seq::<char>::empty());
    assert(body_text(m) =~= ecu + sep + session + sep + app + sep + ctx + sep + kind + sep
        + carried);
}

/// The arguments of a message are shown one after the other with two bars between them, each
/// behind its name where it has one. Numbers are read back from their texts, and bytes stand in
/// a list.
pub proof fn arguments_are_shown_one_by_one(args: Vec<DltArgument>, more: DltArgument, b: Vec<u8>, n: usize)
    ensures
        ({
            let value = match more.value {
                DltValue::Text(s) => s@,
                DltValue::Float(s) => s@,
                DltValue::Raw(x) => text::byte_list(x@),
                DltValue::Unsigned(_) => value_text(more.value),
                DltValue::Signed(_) => value_text(more.value),
            };
            let shown = if more.name is Some {
                more.name->0@ + ": "@ + value
            } else {
                value
            };
            &&& argument_text(more) == shown
            &&& argument_texts(args@.push(more)) == argument_texts(args@).push(shown)
            &&& more.value matches DltValue::Unsigned(x) ==> text::number_of(value, 10) == x
            &&& more.value matches DltValue::Signed(x) ==> if x >= 0 {
                text::number_of(value, 10) == x
            } else {
                value[0] == '-' && text::number_of(value.drop_first(), 10) == -x
            }
        }),
        payload_text(DltPayload::Verbose(args)) == text::join_spec(argument_texts(args@), " || "@),
        argument_texts(args@).len() == args@.len(),
        payload_text(DltPayload::NonVerbose(b)) == text::byte_list(b@),
        payload_text(DltPayload::ControlMsg(b)) == "ControlMsg: "@ + text::byte_list(b@),
        payload_text(DltPayload::NetworkTrace(n)) == "NetworkTrace: "@ + text::dec(n as nat)
            + " traces"@,
{
    assert(argument_texts(args@.push(more)) =~= argument_texts(args@).push(argument_text(more)));
    match more.value {
        DltValue::Unsigned(x) => {
            text::decimal_texts_are_read_back(x as nat);
        },
        DltValue::Signed(x) => {
            text::signs_are_written(x as int);
        },
        _ => {},
    }
}

} // verus!
