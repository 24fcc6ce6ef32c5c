//! The local recognition worker: request headers, message framing, acceptance of
//! answers, one restart after a failure, and unloading when idle.
use crate::commands::{start_command, worker_command, CommandLine};
use crate::config::{ProcessConfig, ProcessConfigView};
use crate::files::{append_bytes, bytes_of};
use crate::json::{text_field, texts_field, whole_field};
use crate::outside::{field_views, json_object, json_object_text, JsonField, JsonValueView};
use crate::protocol::{
    TranscriptResult, TranscriptView, WorkerRequest, WorkerRequestView, WorkerResponse,
    PROTOCOL_VERSION,
};
use crate::text::{
    concat, copy_texts, decimal, decimal_digits, same_text, trim, trimmed_text, views,
};
use crate::text::{is_white_space, trimming_takes_off_white_space_alone};
use vstd::prelude::*;
use vstd::utf8::encode_utf8;

verus! {

/// Longest answer that is read from the worker.
pub const MAX_RESPONSE_BYTES: u32 = 1_048_576;

/// Seconds that the model may take to load.
pub const STARTUP_SECONDS: u64 = 180;

/// Seconds that recognition may take.
pub const INFERENCE_SECONDS: u64 = 180;

/// Request id under which a freshly started worker reports that it is ready.
pub const READY_ID: &'static str = "__ready__";

/// Why the worker gave no transcript.
#[derive(Debug)]
pub enum WorkerError {
    /// The recording does not fit into a request.
    RecordingTooLarge,
    /// The request header does not fit into a frame.
    FrameTooLarge,
    /// The worker announced an empty or an overlong answer.
    InvalidResponseLength(u32),
    /// The answer belongs to another request or another protocol version.
    Mismatched,
    /// The worker reported a failure.
    InferenceFailed(String),
    /// The worker heard nothing.
    NoSpeech,
    /// The worker did not come up.
    NotInitialized(String),
}

impl WorkerError {
    /// The message shown for the error.
    pub open spec fn text(self) -> Seq<char> {
        match self {
            WorkerError::RecordingTooLarge => "recording is too large"@,
            WorkerError::FrameTooLarge => "worker frame too large"@,
            WorkerError::InvalidResponseLength(length) => "invalid worker response length: "@
                + decimal_digits(length as nat),
            WorkerError::Mismatched => "ASR worker returned a mismatched protocol response"@,
            WorkerError::InferenceFailed(error) => "ASR inference failed: "@ + error@,
            WorkerError::NoSpeech => "ASR returned no speech"@,
            WorkerError::NotInitialized(error) => "ASR worker failed to initialize: "@ + error@,
        }
    }

    /// The message shown for the error.
    pub fn message(&self) -> (r: String)
        ensures
            r@ == self.text(),
    {
        match self {
            WorkerError::RecordingTooLarge => "recording is too large".to_owned(),
            WorkerError::FrameTooLarge => "worker frame too large".to_owned(),
            WorkerError::InvalidResponseLength(length) => {
                let digits = decimal(*length as u64);
                concat("invalid worker response length: ", digits.as_str())
            },
            WorkerError::Mismatched => {
                "ASR worker returned a mismatched protocol response".to_owned()
            },
            WorkerError::InferenceFailed(error) => concat("ASR inference failed: ", error.as_str()),
            WorkerError::NoSpeech => "ASR returned no speech".to_owned(),
            WorkerError::NotInitialized(error) => {
                concat("ASR worker failed to initialize: ", error.as_str())
            },
        }
    }
}

/// Eight tokens for every second of audio, begun seconds counted in full
/// proportion, between 128 and 2048.
pub open spec fn token_budget(pcm_bytes: nat) -> nat {
    let wanted = (pcm_bytes + 3_999) / 4_000;
    if wanted < 128 {
        128
    } else if wanted > 2_048 {
        2_048
    } else {
        wanted
    }
}

/// The four bytes of `n`, least significant first.
pub open spec fn le32(n: u32) -> Seq<u8> {
    seq![
        (n % 256) as u8,
        (n / 256 % 256) as u8,
        (n / 65_536 % 256) as u8,
        (n / 16_777_216) as u8,
    ]
}

/// The number with these four bytes, least significant first.
pub open spec fn from_le32(bytes: Seq<u8>) -> int {
    bytes[0] + bytes[1] * 256 + bytes[2] * 65_536 + bytes[3] * 16_777_216
}

/// The request header for a recording.
pub fn worker_request(
    request_id: &str,
    pcm: &[u8],
    language: &str,
    vocabulary: &[String],
) -> (r: Result<WorkerRequest, WorkerError>)
    ensures
        match r {
            Ok(request) => {
                &&& pcm@.len() <= u32::MAX
                &&& request@ == (WorkerRequestView {
                    version: PROTOCOL_VERSION,
                    request_id: request_id@,
                    sample_rate: 16_000,
                    language: language@,
                    vocabulary: views(vocabulary@),
                    max_new_tokens: token_budget(pcm@.len()) as u32,
                    pcm_bytes: pcm@.len() as u32,
                })
            },
            Err(error) => error is RecordingTooLarge && pcm@.len() > u32::MAX,
        },
{
    if pcm.len() as u64 > u32::MAX as u64 {
        return Err(WorkerError::RecordingTooLarge);
    }
    let pcm_bytes: u32 = pcm.len() as u32;
    let wanted: u64 = (pcm_bytes as u64 + 3_999) / 4_000;
    let max_new_tokens: u32 = if wanted < 128 {
        128
    } else if wanted > 2_048 {
        2_048
    } else {
        wanted as u32
    };
    Ok(
        WorkerRequest {
            version: PROTOCOL_VERSION,
            request_id: request_id.to_owned(),
            sample_rate: 16_000,
            language: language.to_owned(),
            vocabulary: copy_texts(vocabulary),
            max_new_tokens,
            pcm_bytes,
        },
    )
}

/// The four bytes of `n`, least significant first.
pub fn le32_bytes(n: u32) -> (r: Vec<u8>)
    ensures
        r@ == le32(n),
{
    let mut r: Vec<u8> = Vec::new();
    r.push((n % 256) as u8);
    r.push((n / 256 % 256) as u8);
    r.push((n / 65_536 % 256) as u8);
    r.push((n / 16_777_216) as u8);
    assert(r@ =~= le32(n));
    r
}

/// A whole request: the length of the header, the header, and the audio.
pub fn request_frame(header: &[u8], pcm: &[u8]) -> (r: Result<Vec<u8>, WorkerError>)
    ensures
        match r {
            Ok(frame) => {
                &&& header@.len() <= u32::MAX
                &&& frame@ == le32(header@.len() as u32) + header@ + pcm@
            },
            Err(error) => error is FrameTooLarge && header@.len() > u32::MAX,
        },
{
    if header.len() as u64 > u32::MAX as u64 {
        return Err(WorkerError::FrameTooLarge);
    }
    let mut frame = le32_bytes(header.len() as u32);
    append_bytes(&mut frame, header);
    append_bytes(&mut frame, pcm);
    Ok(frame)
}

/// What the header of a request holds.
pub open spec fn worker_header_fields(request: WorkerRequestView) -> Seq<
    (Seq<char>, JsonValueView),
> {
    seq![
        ("version"@, JsonValueView::Whole(request.version as u64)),
        ("request_id"@, JsonValueView::Text(request.request_id)),
        ("sample_rate"@, JsonValueView::Whole(request.sample_rate as u64)),
        ("language"@, JsonValueView::Text(request.language)),
        ("vocabulary"@, JsonValueView::Texts(request.vocabulary)),
        ("max_new_tokens"@, JsonValueView::Whole(request.max_new_tokens as u64)),
        ("pcm_bytes"@, JsonValueView::Whole(request.pcm_bytes as u64)),
    ]
}

/// The header of a request as JSON.
pub fn worker_header(request: &WorkerRequest) -> (r: String)
    ensures
        r@ == json_object_text(worker_header_fields(request@)),
{
    let mut fields: Vec<JsonField> = Vec::new();
    fields.push(whole_field("version", request.version as u64));
    fields.push(text_field("request_id", request.request_id.as_str()));
    fields.push(whole_field("sample_rate", request.sample_rate as u64));
    fields.push(text_field("language", request.language.as_str()));
    fields.push(texts_field("vocabulary", copy_texts(request.vocabulary.as_slice())));
    fields.push(whole_field("max_new_tokens", request.max_new_tokens as u64));
    fields.push(whole_field("pcm_bytes", request.pcm_bytes as u64));
    assert(field_views(fields@) =~= worker_header_fields(request@));
    json_object(fields.as_slice())
}

/// The bytes of a request's header.
pub open spec fn header_bytes(request: WorkerRequestView) -> Seq<u8> {
    encode_utf8(json_object_text(worker_header_fields(request)))
}

/// What is written to the worker: the length of the request's header, the header
/// as JSON, and the audio.
pub fn encode_request(request: &WorkerRequest, pcm: &[u8]) -> (r: Result<Vec<u8>, WorkerError>)
    ensures
        match r {
            Ok(frame) => {
                &&& header_bytes(request@).len() <= u32::MAX
                &&& frame@ == le32(header_bytes(request@).len() as u32) + header_bytes(request@)
                    + pcm@
            },
            Err(error) => error is FrameTooLarge && header_bytes(request@).len() > u32::MAX,
        },
{
    let header = worker_header(request);
    let bytes = bytes_of(header.as_str());
    request_frame(bytes.as_slice(), pcm)
}

/// How many bytes of answer follow the four bytes that announce them.
pub fn response_length(prefix: &[u8; 4]) -> (r: Result<u32, WorkerError>)
    ensures
        match r {
            Ok(length) => {
                &&& length == from_le32(prefix@)
                &&& 0 < length <= MAX_RESPONSE_BYTES
            },
            Err(WorkerError::InvalidResponseLength(length)) => {
                &&& length == from_le32(prefix@)
                &&& (length == 0 || length > MAX_RESPONSE_BYTES)
            },
            Err(_) => false,
        },
{
    let length: u32 = prefix[0] as u32 + prefix[1] as u32 * 256 + prefix[2] as u32 * 65_536
        + prefix[3] as u32 * 16_777_216;
    if length == 0 || length > MAX_RESPONSE_BYTES {
        return Err(WorkerError::InvalidResponseLength(length));
    }
    Ok(length)
}

/// The announced length is the one that was written.
pub proof fn frame_lengths_round_trip(n: u32)
    ensures
        le32(n).len() == 4,
        from_le32(le32(n)) == n,
{
}

/// A frame starts with the length of its header, then holds the header and the
/// audio unchanged.
pub proof fn frames_can_be_taken_apart(header: Seq<u8>, pcm: Seq<u8>)
    requires
        header.len() <= u32::MAX,
    ensures
        ({
            let frame = le32(header.len() as u32) + header + pcm;
            &&& from_le32(frame.take(4)) == header.len()
            &&& frame.subrange(4, 4 + header.len() as int) == header
            &&& frame.skip(4 + header.len() as int) == pcm
        }),
{
    let prefix = le32(header.len() as u32);
    let frame = prefix + header + pcm;
    assert(frame.take(4) =~= prefix);
    assert(frame.subrange(4, 4 + header.len() as int) =~= header);
    assert(frame.skip(4 + header.len() as int) =~= pcm);
}

/// The transcript in an answer, if the answer belongs to the request, reports
/// success and heard something.
pub fn accept_response(
    response: WorkerResponse,
    request_id: &str,
) -> (r: Result<TranscriptResult, WorkerError>)
    ensures
        ({
            let matching = response.version == PROTOCOL_VERSION && response.request_id@
                == request_id@;
            let heard = trim(response.text@);
            match r {
                Ok(transcript) => {
                    &&& matching && response.ok && heard.len() > 0
                    &&& transcript@ == (TranscriptView { text: heard, language: response.language@ })
                },
                Err(WorkerError::Mismatched) => !matching,
                Err(WorkerError::InferenceFailed(error)) => matching && !response.ok && error@
                    == response.error@,
                Err(WorkerError::NoSpeech) => matching && response.ok && heard.len() == 0,
                Err(_) => false,
            }
        }),
{
    if response.version != PROTOCOL_VERSION || !same_text(
        response.request_id.as_str(),
        request_id,
    ) {
        return Err(WorkerError::Mismatched);
    }
    if !response.ok {
        return Err(WorkerError::InferenceFailed(response.error));
    }
    let text = trimmed_text(response.text.as_str());
    if text.as_str().is_empty() {
        return Err(WorkerError::NoSpeech);
    }
    Ok(TranscriptResult { text, language: response.language })
}

/// A planned unloading of the idle model.
#[derive(Debug, Clone, Copy, PartialEq, Eq, Structural)]
pub struct IdleTicket {
    /// The use after which the model may be unloaded.
    pub generation: u64,
    /// How long to wait.
    pub seconds: u64,
}

/// What to do after an attempt at recognition.
#[derive(Debug)]
pub enum AttemptStep {
    /// Hand this outcome over, and unload the model when it stays unused.
    Finished { outcome: Result<TranscriptResult, String>, unload: IdleTicket },
    /// Try once more with a new process, remembering why the first try failed.
    /// `kill` says whether there is a process to kill first.
    Restart { first_error: String, kill: bool },
}

/// What the daemon knows of its worker process.
#[derive(Debug)]
pub struct WorkerManager {
    config: ProcessConfig,
    idle_minutes: u64,
    idle_generation: u64,
    running: bool,
    ready: bool,
}

/// `value` between `low` and `high`.
pub open spec fn clamped(value: u64, low: u64, high: u64) -> u64 {
    if value < low {
        low
    } else if value > high {
        high
    } else {
        value
    }
}

/// `value` between `low` and `high`.
pub fn clamp(value: u64, low: u64, high: u64) -> (r: u64)
    ensures
        r == clamped(value, low, high),
{
    if value < low {
        low
    } else if value > high {
        high
    } else {
        value
    }
}

impl WorkerManager {
    /// How the worker is started.
    pub closed spec fn settings(&self) -> ProcessConfigView {
        self.config@
    }

    /// Minutes after which an unused model is unloaded.
    pub closed spec fn minutes(&self) -> u64 {
        self.idle_minutes
    }

    /// The latest use of the model.
    pub closed spec fn generation(&self) -> u64 {
        self.idle_generation
    }

    /// A worker process exists.
    pub closed spec fn is_running(&self) -> bool {
        self.running
    }

    /// The model is loaded.
    pub closed spec fn model_ready(&self) -> bool {
        self.ready
    }

    /// A loaded model needs a process, and waiting times fit into seconds.
    pub open spec fn wf(&self) -> bool {
        (self.model_ready() ==> self.is_running()) && self.minutes() * 60 <= u64::MAX
    }

    /// No process yet.
    pub fn new(config: ProcessConfig) -> (r: WorkerManager)
        requires
            config.runtime.model_idle_minutes * 60 <= u64::MAX,
        ensures
            r.wf(),
            r.settings() == config@,
            r.minutes() == config.runtime.model_idle_minutes,
            r.generation() == 0,
            !r.is_running(),
            !r.model_ready(),
    {
        let idle_minutes: u64 = config.runtime.model_idle_minutes;
        WorkerManager { config, idle_minutes, idle_generation: 0, running: false, ready: false }
    }

    /// Whether the model is loaded.
    pub fn is_ready(&self) -> (r: bool)
        ensures
            r == self.model_ready(),
    {
        self.ready
    }

    /// Sets the idle time, kept between one minute and two hours.
    pub fn set_idle_minutes(&mut self, value: u64)
        requires
            old(self).wf(),
        ensures
            final(self).wf(),
            final(self).settings() == old(self).settings(),
            final(self).minutes() == clamped(value, 1, 120),
            final(self).generation() == old(self).generation(),
            final(self).is_running() == old(self).is_running(),
            final(self).model_ready() == old(self).model_ready(),
    {
        self.idle_minutes = clamp(value, 1, 120);
    }

    /// The process to start before the worker can be used, none if it runs.
    pub fn warm(&mut self) -> (r: Option<CommandLine>)
        requires
            old(self).wf(),
        ensures
            final(self).wf(),
            match r {
                Some(command) => !old(self).is_running() && command@ == start_command(
                    old(self).settings(),
                ),
                None => old(self).is_running(),
            },
            final(self).settings() == old(self).settings(),
            final(self).minutes() == old(self).minutes(),
            final(self).generation() == old(self).generation(),
            final(self).is_running() == old(self).is_running(),
            final(self).model_ready() == (old(self).model_ready() && old(self).is_running()),
    {
        if self.running {
            return None;
        }
        self.ready = false;
        Some(worker_command(&self.config))
    }

    /// Takes the first answer of a started process: it counts as running and
    /// ready only if it reports success under the agreed id.
    pub fn started(&mut self, answer: WorkerResponse) -> (r: Result<(), WorkerError>)
        requires
            old(self).wf(),
        ensures
            final(self).wf(),
            final(self).settings() == old(self).settings(),
            final(self).minutes() == old(self).minutes(),
            final(self).generation() == old(self).generation(),
            match r {
                Ok(_) => {
                    &&& answer.ok && answer.request_id@ == READY_ID@
                    &&& final(self).is_running() && final(self).model_ready()
                },
                Err(WorkerError::NotInitialized(error)) => {
                    &&& !(answer.ok && answer.request_id@ == READY_ID@)
                    &&& error@ == answer.error@
                    &&& final(self).is_running() == old(self).is_running()
                    &&& final(self).model_ready() == old(self).model_ready()
                },
                Err(_) => false,
            },
    {
        if !answer.ok || !same_text(answer.request_id.as_str(), READY_ID) {
            return Err(WorkerError::NotInitialized(answer.error));
        }
        self.running = true;
        self.ready = true;
        Ok(())
    }

    /// Forgets the process. Says whether there is one to kill.
    pub fn stop(&mut self) -> (r: bool)
        requires
            old(self).wf(),
        ensures
            final(self).wf(),
            r == old(self).is_running(),
            !final(self).is_running(),
            !final(self).model_ready(),
            final(self).settings() == old(self).settings(),
            final(self).minutes() == old(self).minutes(),
            final(self).generation() == old(self).generation(),
    {
        let kill = self.running;
        self.ready = false;
        self.running = false;
        kill
    }

    /// Decides after an attempt: a first failure stops the worker and asks for
    /// one more attempt, a second one is reported with the reason of the first.
    pub fn transcribe(
        &mut self,
        first_error: Option<String>,
        outcome: Result<TranscriptResult, String>,
    ) -> (r: AttemptStep)
        requires
            old(self).wf(),
        ensures
            final(self).wf(),
            final(self).settings() == old(self).settings(),
            final(self).minutes() == old(self).minutes(),
            outcome is Err && first_error is None ==> {
                &&& r == (AttemptStep::Restart {
                    first_error: outcome->Err_0,
                    kill: old(self).is_running(),
                })
                &&& !final(self).is_running()
                &&& !final(self).model_ready()
                &&& final(self).generation() == old(self).generation()
            },
            outcome is Ok || first_error is Some ==> {
                &&& r is Finished
                &&& match outcome {
                    Ok(transcript) => r->outcome == Ok::<TranscriptResult, String>(transcript),
                    Err(_) => r->outcome is Err && r->outcome->Err_0@
                        == "ASR worker failed after restart: "@ + first_error->0@,
                }
                &&& r->unload.generation == next_generation(old(self).generation())
                &&& r->unload.seconds == old(self).minutes() * 60
                &&& final(self).generation() == r->unload.generation
                &&& final(self).is_running() == old(self).is_running()
                &&& final(self).model_ready() == old(self).model_ready()
            },
    {
        match outcome {
            Ok(transcript) => {
                let unload = self.schedule_idle_unload();
                AttemptStep::Finished { outcome: Ok(transcript), unload }
            },
            Err(error) => match first_error {
                None => {
                    let kill = self.stop();
                    AttemptStep::Restart { first_error: error, kill }
                },
                Some(first) => {
                    let unload = self.schedule_idle_unload();
                    let message = concat("ASR worker failed after restart: ", first.as_str());
                    AttemptStep::Finished { outcome: Err(message), unload }
                },
            },
        }
    }

    /// Notes a use of the model and plans its unloading.
    pub fn schedule_idle_unload(&mut self) -> (r: IdleTicket)
        requires
            old(self).wf(),
        ensures
            final(self).wf(),
            r.generation == next_generation(old(self).generation()),
            r.seconds == old(self).minutes() * 60,
            final(self).generation() == r.generation,
            final(self).settings() == old(self).settings(),
            final(self).minutes() == old(self).minutes(),
            final(self).is_running() == old(self).is_running(),
            final(self).model_ready() == old(self).model_ready(),
    {
        self.idle_generation = self.idle_generation.wrapping_add(1);
        IdleTicket { generation: self.idle_generation, seconds: self.idle_minutes * 60 }
    }

    /// Whether the model was not used since the ticket was drawn.
    pub fn idle_unload_due(&self, ticket: IdleTicket) -> (r: bool)
        ensures
            r == (self.generation() == ticket.generation),
    {
        self.idle_generation == ticket.generation
    }
}

/// The use after `generation`.
pub open spec fn next_generation(generation: u64) -> u64 {
    if generation == u64::MAX {
        0
    } else {
        (generation + 1) as u64
    }
}

/// The use that comes `count` uses after `generation`.
pub open spec fn later_generation(generation: u64, count: nat) -> u64
    decreases count,
{
    if count == 0 {
        generation
    } else {
        next_generation(later_generation(generation, (count - 1) as nat))
    }
}

proof fn lemma_later(generation: u64, count: nat)
    requires
        count <= u64::MAX,
    ensures
        later_generation(generation, count) == (if generation + count <= u64::MAX {
            generation + count
        } else {
            generation + count - u64::MAX - 1
        }),
    decreases count,
{
    if count > 0 {
        lemma_later(generation, (count - 1) as nat);
    }
}

/// Every later use of the model makes an earlier plan to unload it void, for all
/// the uses that can be told apart.
pub proof fn later_uses_void_a_ticket(generation: u64, count: nat)
    requires
        0 < count <= u64::MAX,
    ensures
        later_generation(generation, count) != generation,
{
    lemma_later(generation, count);
}

/// The budget is the least number of tokens, eight for a second of 32000 bytes,
/// that covers the recording, within its bounds.
pub proof fn the_budget_covers_the_recording(pcm_bytes: nat)
    ensures
        128 <= token_budget(pcm_bytes) <= 2_048,
        token_budget(pcm_bytes) < 2_048 ==> 32_000 * token_budget(pcm_bytes) >= 8 * pcm_bytes,
        token_budget(pcm_bytes) > 128 ==> 32_000 * (token_budget(pcm_bytes) - 1) < 8 * pcm_bytes,
{
}

/// An answer counts exactly if it is of this version, for this request, reports
/// success and holds more than white space; then its text is handed over without
/// the white space around it, in the language it reports.
pub proof fn answers_count_for_their_request_alone(
    before: Seq<char>,
    heard: Seq<char>,
    after: Seq<char>,
    response: WorkerResponse,
    request_id: &str,
    r: Result<TranscriptResult, WorkerError>,
)
    requires
        forall|i: int| 0 <= i < before.len() ==> is_white_space(#[trigger] before[i]),
        forall|i: int| 0 <= i < after.len() ==> is_white_space(#[trigger] after[i]),
        heard.len() > 0 ==> !is_white_space(heard[0]) && !is_white_space(heard.last()),
        response.text@ == before + heard + after,
        call_ensures(accept_response, (response, request_id), r),
    ensures
        r is Ok <==> response.version == 1 && response.request_id@ == request_id@ && response.ok
            && heard.len() > 0,
        r is Ok ==> r->Ok_0.text@ == heard && r->Ok_0.language@ == response.language@,
        response.version == 1 && response.request_id@ == request_id@ && !response.ok ==> (r
            matches Err(WorkerError::InferenceFailed(error)) && error@ == response.error@),
{
    trimming_takes_off_white_space_alone(before, heard, after);
}

/// The header carries the whole request.
pub proof fn the_header_carries_the_request(request: WorkerRequestView)
    ensures
        ({
            let fields = worker_header_fields(request);
            &&& fields.len() == 7
            &&& fields.contains(("version"@, JsonValueView::Whole(request.version as u64)))
            &&& fields.contains(("request_id"@, JsonValueView::Text(request.request_id)))
            &&& fields.contains(("sample_rate"@, JsonValueView::Whole(request.sample_rate as u64)))
            &&& fields.contains(("language"@, JsonValueView::Text(request.language)))
            &&& fields.contains(("vocabulary"@, JsonValueView::Texts(request.vocabulary)))
            &&& fields.contains(
                ("max_new_tokens"@, JsonValueView::Whole(request.max_new_tokens as u64)),
            )
            &&& fields.contains(("pcm_bytes"@, JsonValueView::Whole(request.pcm_bytes as u64)))
        }),
{
    let fields = worker_header_fields(request);
    assert(fields[0].0 == "version"@ && fields[1].0 == "request_id"@);
    assert(fields[2].0 == "sample_rate"@ && fields[3].0 == "language"@);
    assert(fields[4].0 == "vocabulary"@ && fields[5].0 == "max_new_tokens"@);
    assert(fields[6].0 == "pcm_bytes"@);
}

} // verus!
