//! What the scoring service and its clients tell each other.

use crate::text;
use std::collections::HashMap;
use vstd::prelude::*;

verus! {

/// The answer to the question whether the service is up.
#[derive(Debug)]
pub struct HealthResponse {
    pub api_version: String,
    pub status: String,
}

/// What a model was trained on.
#[derive(Debug)]
pub struct TrainingCorpus {
    pub filter_profile: String,
    pub description: String,
    /// By the kind of the file, the version of the rules that made messages alike.
    pub normalization_versions: HashMap<String, u32>,
}

/// How many lines the service takes at once.
#[derive(Debug, Clone, Copy, PartialEq, Eq, Structural)]
pub struct ChunkPolicy {
    pub recommended_lines_per_chunk: usize,
    pub max_lines_per_chunk: usize,
}

/// What a model answers.
#[derive(Debug)]
pub struct OutputInfo {
    pub score_kind: String,
    pub higher_is_more_anomalous: bool,
    pub supports_explanations: bool,
}

/// A model of the service.
#[derive(Debug)]
pub struct ModelInfo {
    pub id: String,
    pub name: String,
    pub architecture: String,
    pub kind: String,
    pub version: String,
    pub input_mode: String,
    pub training_corpus: TrainingCorpus,
    pub chunk_policy: ChunkPolicy,
    pub output: OutputInfo,
}

/// A rule of the service for which lines it takes.
#[derive(Debug)]
pub struct FilterProfileInfo {
    pub id: String,
    pub description: String,
}

/// The numbers of lines that the service takes at once, as it sends them.
#[derive(Debug, Clone, Copy, PartialEq, Eq, Structural)]
pub struct ChunkPolicyMessage {
    pub recommended_lines_per_chunk: u32,
    pub max_lines_per_chunk: u32,
}

/// A model as the service sends it; parts may be missing.
#[derive(Debug)]
pub struct ModelMessage {
    pub id: String,
    pub name: String,
    pub architecture: String,
    pub kind: String,
    pub version: String,
    pub input_mode: String,
    pub training_corpus: Option<TrainingCorpus>,
    pub chunk_policy: Option<ChunkPolicyMessage>,
    pub output: Option<OutputInfo>,
}

/// Reads a model. A part that is missing is empty, zero or false.
pub fn model_info(m: ModelMessage) -> (r: ModelInfo)
    ensures
        r.id == m.id,
        r.name == m.name,
        r.architecture == m.architecture,
        r.kind == m.kind,
        r.version == m.version,
        r.input_mode == m.input_mode,
        match m.training_corpus {
            Some(c) => r.training_corpus == c,
            None => {
                &&& r.training_corpus.filter_profile@ == Seq::<char>::empty()
                &&& r.training_corpus.description@ == Seq::<char>::empty()
                &&& r.training_corpus.normalization_versions@ == Map::<String, u32>::empty()
            },
        },
        match m.chunk_policy {
            Some(c) => {
                &&& r.chunk_policy.recommended_lines_per_chunk == c.recommended_lines_per_chunk
                &&& r.chunk_policy.max_lines_per_chunk == c.max_lines_per_chunk
            },
            None => {
                &&& r.chunk_policy.recommended_lines_per_chunk == 0
                &&& r.chunk_policy.max_lines_per_chunk == 0
            },
        },
        match m.output {
            Some(o) => r.output == o,
            None => {
                &&& r.output.score_kind@ == Seq::<char>::empty()
                &&& !r.output.higher_is_more_anomalous
                &&& !r.output.supports_explanations
            },
        },
{
    let training_corpus = match m.training_corpus {
        Some(c) => c,
        None => {
            let normalization_versions: HashMap<String, u32> = HashMap::new();
            TrainingCorpus {
                filter_profile: String::new(),
                description: String::new(),
                normalization_versions,
            }
        },
    };
    let chunk_policy = match m.chunk_policy {
        Some(c) => ChunkPolicy {
            recommended_lines_per_chunk: c.recommended_lines_per_chunk as usize,
            max_lines_per_chunk: c.max_lines_per_chunk as usize,
        },
        None => ChunkPolicy { recommended_lines_per_chunk: 0, max_lines_per_chunk: 0 },
    };
    let output = match m.output {
        Some(o) => o,
        None => OutputInfo {
            score_kind: String::new(),
            higher_is_more_anomalous: false,
            supports_explanations: false,
        },
    };
    ModelInfo {
        id: m.id,
        name: m.name,
        architecture: m.architecture,
        kind: m.kind,
        version: m.version,
        input_mode: m.input_mode,
        training_corpus,
        chunk_policy,
        output,
    }
}

/// Which line a message to or from the service speaks of.
#[derive(Debug, Clone, Copy, PartialEq, Eq, Structural)]
pub struct LineId {
    pub source_id: u16,
    /// The place of the line in its file, from 0.
    pub line_number: usize,
    pub timestamp_unix_ms: u64,
}

/// A line to be scored.
#[derive(Debug)]
pub struct InputLine {
    pub line_id: LineId,
    pub message: String,
    pub template_key: Option<String>,
    pub source_file: Option<String>,
    pub filetype: Option<String>,
}

impl InputLine {
    pub fn new(
        source_id: u16,
        line_number: usize,
        timestamp_unix_ms: u64,
        message: String,
        template_key: Option<String>,
        source_file: Option<String>,
        filetype: Option<String>,
    ) -> (r: Self)
        ensures
            r == (InputLine {
                line_id: LineId { source_id, line_number, timestamp_unix_ms },
                message,
                template_key,
                source_file,
                filetype,
            }),
    {
        InputLine {
            line_id: LineId { source_id, line_number, timestamp_unix_ms },
            message,
            template_key,
            source_file,
            filetype,
        }
    }
}

/// A line as it is sent to the service.
#[derive(Debug)]
pub struct WireLine {
    pub source_id: u32,
    pub line_number: u64,
    pub timestamp_unix_ms: u64,
    pub message: String,
    pub template_key: Option<String>,
    pub source_file: Option<String>,
    pub filetype: Option<String>,
}

impl InputLine {
    /// The line as it is sent.
    pub open spec fn wire(&self) -> WireLine {
        WireLine {
            source_id: self.line_id.source_id as u32,
            line_number: self.line_id.line_number as u64,
            timestamp_unix_ms: self.line_id.timestamp_unix_ms,
            message: self.message,
            template_key: self.template_key,
            source_file: self.source_file,
            filetype: self.filetype,
        }
    }

    /// The line as it is sent.
    pub fn to_wire(&self) -> (r: WireLine)
        ensures
            r == self.wire(),
    {
        WireLine {
            source_id: self.line_id.source_id as u32,
            line_number: self.line_id.line_number as u64,
            timestamp_unix_ms: self.line_id.timestamp_unix_ms,
            message: self.message.clone(),
            template_key: text::clone_opt(&self.template_key),
            source_file: text::clone_opt(&self.source_file),
            filetype: text::clone_opt(&self.filetype),
        }
    }
}

/// Lines as they are sent.
pub open spec fn wire_lines(lines: Seq<InputLine>) -> Seq<WireLine> {
    lines.map_values(|l: InputLine| l.wire())
}

/// Lines as they are sent.
pub fn to_wire_lines(lines: &[InputLine]) -> (r: Vec<WireLine>)
    ensures
        r@ == wire_lines(lines@),
{
    let mut out: Vec<WireLine> = Vec::new();
    let mut i: usize = 0;
    while i < lines.len()
        invariant
            i <= lines@.len(),
            out@ == wire_lines(lines@).take(i as int),
        decreases lines.len() - i,
    {
        out.push(lines[i].to_wire());
        assert(out@ =~= wire_lines(lines@).take(i + 1));
        i += 1;
    }
    assert(out@ =~= wire_lines(lines@));
    out
}

/// What a user says of a line.
#[derive(Debug, Clone, Copy, PartialEq, Eq, Structural)]
pub enum SampleLabel {
    Benign,
    Anomalous,
}

impl SampleLabel {
    /// The word for the label.
    pub open spec fn word(self) -> Seq<char> {
        match self {
            SampleLabel::Benign => "benign"@,
            SampleLabel::Anomalous => "anomalous"@,
        }
    }

    /// The word for the label.
    pub fn as_str(self) -> (r: &'static str)
        ensures
            r@ == self.word(),
    {
        match self {
            SampleLabel::Benign => "benign",
            SampleLabel::Anomalous => "anomalous",
        }
    }
}

/// A line with what a user says of it, and the lines around it.
#[derive(Debug)]
pub struct SampleRequest {
    pub model_id: String,
    pub label: String,
    pub classified_line_number: u64,
    pub lines: Vec<WireLine>,
}

/// The port on which the service listens, unless the user says otherwise.
pub const DEFAULT_PORT: u16 = 8765;

/// A scoring service, by its address.
#[derive(Debug)]
pub struct SidecarClient {
    pub host: String,
    pub port: u16,
}

impl SidecarClient {
    /// The host on which the service runs, unless the user says otherwise.
    pub fn default_host() -> (r: &'static str)
        ensures
            r@ == "127.0.0.1"@,
    {
        "127.0.0.1"
    }

    /// The port on which the service listens, unless the user says otherwise.
    pub fn default_port() -> (r: u16)
        ensures
            r == DEFAULT_PORT,
    {
        DEFAULT_PORT
    }

    /// The service at an address. Nothing is sent yet.
    pub fn connect(host: &str, port: u16) -> (r: Self)
        ensures
            r.host@ == host@,
            r.port == port,
    {
        SidecarClient { host: String::from_str(host), port }
    }

    /// Where the service is reached.
    pub open spec fn endpoint_text(&self) -> Seq<char> {
        "http://"@ + self.host@ + ":"@ + text::dec(self.port as nat)
    }

    /// Where the service is reached.
    pub fn endpoint(&self) -> (r: String)
        ensures
            r@ == self.endpoint_text(),
    {
        let mut r = String::from_str("http://");
        r.append(self.host.as_str());
        r.append(":");
        text::push_dec(&mut r, self.port as u64);
        r
    }

    /// What is sent when a user labels a line.
    pub fn submit_sample(
        &self,
        model_id: &str,
        label: SampleLabel,
        classified_line_number: usize,
        lines: &[InputLine],
    ) -> (r: SampleRequest)
        ensures
            r.model_id@ == model_id@,
            r.label@ == label.word(),
            r.classified_line_number == classified_line_number,
            r.lines@ == wire_lines(lines@),
    {
        SampleRequest {
            model_id: String::from_str(model_id),
            label: String::from_str(label.as_str()),
            classified_line_number: classified_line_number as u64,
            lines: to_wire_lines(lines),
        }
    }
}

/// What is sent of a line is what is known of it, and lines are sent in their order.
pub proof fn lines_are_sent_as_they_are(lines: Seq<InputLine>, i: int)
    requires
        0 <= i < lines.len(),
    ensures
        wire_lines(lines).len() == lines.len(),
        wire_lines(lines)[i].source_id == lines[i].line_id.source_id,
        wire_lines(lines)[i].line_number == lines[i].line_id.line_number,
        wire_lines(lines)[i].timestamp_unix_ms == lines[i].line_id.timestamp_unix_ms,
        wire_lines(lines)[i].message == lines[i].message,
        wire_lines(lines)[i].template_key == lines[i].template_key,
        wire_lines(lines)[i].source_file == lines[i].source_file,
        wire_lines(lines)[i].filetype == lines[i].filetype,
{
}

/// A service is reached at its host and port, and a label has its word.
pub proof fn services_are_reached_at_their_address(client: SidecarClient)
    ensures
        client.endpoint_text() == "http://"@ + client.host@ + ":"@ + text::dec(client.port as nat),
        SampleLabel::Benign.word() == "benign"@,
        SampleLabel::Anomalous.word() == "anomalous"@,
        DEFAULT_PORT == 8765,
{
}

} // verus!
