//! The single dictation pipeline: who may record, what becomes of a recording,
//! and who may take the result.
//!
//! The pipeline itself does nothing but keep its books. Whoever drives it
//! records, recognizes and cleans up, and reports every outcome back.
use crate::asr::{AsrCall, AsrError, AsrRouter, Readiness};
use crate::asr::{fits_data_url, fits_wav, qwen_request_of, transcription_request_of};
use crate::json::whole_field;
use crate::openai_compat::{polish_request, polish_request_of, PolishRequest, PolishRequestView};
use crate::outside::{field_views, json_object, json_object_text, JsonField, JsonValueView};
use crate::prompt::{polished_output_rejection, rejection};
use crate::protocol::{
    AsrProvider, FinalResult, FinalResultView, PipelineState, RuntimeConfig, RuntimeConfigView,
    SessionOptions, SessionOptionsView, TranscriptResult, TranscriptView,
};
use crate::settings::{bounded, bounded_config, prepare_options, prepared};
use crate::store::{unexpired, ResultTable, StoredResult, StoredView};
use crate::text::{byte_len, byte_len_at_most, chars_of, option_view, same_text, views};
use crate::vocabulary::{
    directory_views, resolve_contextual_entities, resolved_everywhere, VocabularyFile,
    VocabularyFileView,
};
use crate::worker::clamped;
use vstd::hash_set::StringHashSet;
use vstd::prelude::*;

verus! {

/// Longest session id, in bytes.
pub const MAX_SESSION_ID_BYTES: usize = 128;

/// Seconds after which a result that nobody took is dropped.
pub const RESULT_SECONDS: u64 = 30;

/// The same in nanoseconds.
pub const RESULT_NANOSECONDS: u64 = 30_000_000_000;

/// Seconds for which a failure is shown.
pub const ERROR_SECONDS: u64 = 10;

/// Seconds beyond the longest recording after which a session is given up.
pub const GRACE_SECONDS: u64 = 2;

/// Why a request was refused.
#[derive(Debug, Clone, Copy, PartialEq, Eq, Structural)]
pub enum PipelineError {
    InvalidSessionId,
    Busy,
    BecameBusy,
    NoActiveRecording,
    Mismatch,
    NotReady,
    ForeignResult,
}

impl PipelineError {
    /// The message shown for the error.
    pub open spec fn text(self) -> Seq<char> {
        match self {
            PipelineError::InvalidSessionId => "invalid session id"@,
            PipelineError::Busy => "dictation pipeline is busy"@,
            PipelineError::BecameBusy => "dictation pipeline became busy"@,
            PipelineError::NoActiveRecording => "there is no active recording"@,
            PipelineError::Mismatch => "session owner or id does not match"@,
            PipelineError::NotReady => "result is not ready or has expired"@,
            PipelineError::ForeignResult => "result belongs to another DBus caller"@,
        }
    }

    /// The message shown for the error.
    pub fn message(self) -> (r: String)
        ensures
            r@ == self.text(),
    {
        match self {
            PipelineError::InvalidSessionId => "invalid session id".to_owned(),
            PipelineError::Busy => "dictation pipeline is busy".to_owned(),
            PipelineError::BecameBusy => "dictation pipeline became busy".to_owned(),
            PipelineError::NoActiveRecording => "there is no active recording".to_owned(),
            PipelineError::Mismatch => "session owner or id does not match".to_owned(),
            PipelineError::NotReady => "result is not ready or has expired".to_owned(),
            PipelineError::ForeignResult => "result belongs to another DBus caller".to_owned(),
        }
    }
}

/// A session that is being recorded.
#[derive(Debug)]
pub struct ActiveSession {
    pub id: String,
    pub owner: String,
    pub options: SessionOptions,
}

/// The content of an [`ActiveSession`].
#[verifier::ext_equal]
pub struct ActiveView {
    pub id: Seq<char>,
    pub owner: Seq<char>,
    pub options: SessionOptionsView,
}

impl View for ActiveSession {
    type V = ActiveView;

    open spec fn view(&self) -> ActiveView {
        ActiveView { id: self.id@, owner: self.owner@, options: self.options@ }
    }
}

/// A recorded session on its way to a result.
#[derive(Debug)]
pub struct ProcessingSession {
    pub id: String,
    pub owner: String,
    pub options: SessionOptions,
    pub pcm: Vec<u8>,
    /// How long was recorded.
    pub recorded_ms: u64,
}

/// Why a session came to nothing.
#[derive(Debug)]
pub struct Failure {
    pub message: String,
    /// The pipeline shows it, and is to take it back after [`ERROR_SECONDS`].
    pub shown: bool,
}

/// Session and owner of what is being processed.
#[derive(Debug)]
pub struct Claim {
    pub id: String,
    pub owner: String,
}

/// What it takes to start recording.
#[derive(Debug)]
pub struct BeginPlan {
    pub options: SessionOptions,
    /// The longest recording.
    pub max_seconds: u64,
    /// Seconds after which the session is cancelled in any case.
    pub give_up_seconds: u64,
}

/// What cleanup is asked for.
#[derive(Debug)]
pub enum CloudCall {
    /// None: the session does not want any.
    Disabled,
    /// None: a key is required and there is none.
    NoKey,
    Ask(PolishRequest),
}

/// The content of a [`CloudCall`].
#[verifier::ext_equal]
pub enum CloudCallView {
    Disabled,
    NoKey,
    Ask(PolishRequestView),
}

impl View for CloudCall {
    type V = CloudCallView;

    open spec fn view(&self) -> CloudCallView {
        match *self {
            CloudCall::Disabled => CloudCallView::Disabled,
            CloudCall::NoKey => CloudCallView::NoKey,
            CloudCall::Ask(request) => CloudCallView::Ask(request@),
        }
    }
}

/// What came of cleanup.
#[derive(Debug)]
pub enum CloudOutcome {
    Disabled,
    NoKey,
    Failed,
    Answered(String),
}

/// What the pipeline knows.
#[verifier::ext_equal]
pub struct PipelineView {
    pub state: PipelineState,
    pub detail: Seq<char>,
    pub active: Option<ActiveView>,
    /// Session and owner of what is being processed.
    pub processing: Option<(Seq<char>, Seq<char>)>,
    /// Sessions cancelled while they were processed.
    pub cancelled: Set<Seq<char>>,
    pub results: Map<Seq<char>, StoredView>,
    pub runtime: RuntimeConfigView,
}

/// A pipeline at rest.
pub open spec fn at_rest(runtime: RuntimeConfigView) -> PipelineView {
    PipelineView {
        state: PipelineState::Idle,
        detail: Seq::empty(),
        active: None,
        processing: None,
        cancelled: Set::empty(),
        results: Map::empty(),
        runtime,
    }
}

/// A session id can be used.
pub open spec fn is_session_id(id: Seq<char>) -> bool {
    id.len() > 0 && byte_len(id) <= MAX_SESSION_ID_BYTES
}

/// No session can begin.
pub open spec fn is_busy(p: PipelineView) -> bool {
    p.active is Some || p.state != PipelineState::Idle
}

/// Why a session cannot begin.
pub open spec fn begin_error(p: PipelineView, id: Seq<char>) -> Option<PipelineError> {
    if !is_session_id(id) {
        Some(PipelineError::InvalidSessionId)
    } else if is_busy(p) {
        Some(PipelineError::Busy)
    } else {
        None
    }
}

/// The session is being recorded.
pub open spec fn begun(p: PipelineView, session: ActiveView) -> PipelineView {
    PipelineView {
        state: PipelineState::Recording,
        detail: Seq::empty(),
        active: Some(session),
        cancelled: p.cancelled.remove(session.id),
        ..p
    }
}

/// Why a recording cannot end.
pub open spec fn end_error(p: PipelineView, owner: Seq<char>, id: Seq<char>) -> Option<
    PipelineError,
> {
    match p.active {
        None => Some(PipelineError::NoActiveRecording),
        Some(active) => if active.id != id || active.owner != owner {
            Some(PipelineError::Mismatch)
        } else {
            None
        },
    }
}

/// The recording has ended and is processed.
pub open spec fn ended(p: PipelineView, owner: Seq<char>, id: Seq<char>) -> PipelineView {
    if end_error(p, owner, id) is None {
        PipelineView {
            state: PipelineState::Transcribing,
            active: None,
            processing: Some((id, owner)),
            ..p
        }
    } else {
        p
    }
}

/// The session is the one being processed.
pub open spec fn is_current(p: PipelineView, id: Seq<char>) -> bool {
    p.processing matches Some((current, _)) && current == id
}

/// The session is the one being processed, for this owner.
pub open spec fn is_claimed(p: PipelineView, id: Seq<char>, owner: Seq<char>) -> bool {
    p.processing == Some((id, owner))
}

/// Processing has failed, if it is still that of this session.
pub open spec fn failed(p: PipelineView, id: Seq<char>, detail: Seq<char>) -> PipelineView {
    if is_current(p, id) {
        PipelineView { state: PipelineState::Error, detail, ..p }
    } else {
        p
    }
}

/// The failure has been shown long enough.
pub open spec fn error_expired(p: PipelineView, id: Seq<char>) -> PipelineView {
    if p.state == PipelineState::Error && is_current(p, id) {
        PipelineView {
            state: PipelineState::Idle,
            detail: Seq::empty(),
            processing: None,
            ..p
        }
    } else {
        p
    }
}

/// Cleanup may start: the session was not cancelled and is still current.
pub open spec fn may_polish(p: PipelineView, id: Seq<char>) -> bool {
    !p.cancelled.contains(id) && is_current(p, id)
}

/// Cleanup starts, unless the session is gone.
pub open spec fn polishing(p: PipelineView, id: Seq<char>) -> PipelineView {
    if p.cancelled.contains(id) {
        PipelineView { cancelled: p.cancelled.remove(id), ..p }
    } else if is_current(p, id) {
        PipelineView { state: PipelineState::Polishing, detail: Seq::empty(), ..p }
    } else {
        p
    }
}

/// A result may be stored: the session was not cancelled and is still current.
pub open spec fn may_store(p: PipelineView, id: Seq<char>, owner: Seq<char>) -> bool {
    !p.cancelled.contains(id) && is_claimed(p, id, owner)
}

/// The result waits to be taken, unless the session is gone.
pub open spec fn stored(
    p: PipelineView,
    id: Seq<char>,
    owner: Seq<char>,
    value: FinalResultView,
    now: u64,
) -> PipelineView {
    if p.cancelled.contains(id) {
        PipelineView { cancelled: p.cancelled.remove(id), ..p }
    } else if is_claimed(p, id, owner) {
        PipelineView {
            state: PipelineState::ResultReady,
            detail: Seq::empty(),
            processing: None,
            results: unexpired(p.results, now).insert(
                id,
                StoredView { owner, value, expires_at: (now + RESULT_NANOSECONDS) as u128 },
            ),
            ..p
        }
    } else {
        p
    }
}

/// Why a result cannot be taken.
pub open spec fn take_error(p: PipelineView, owner: Seq<char>, id: Seq<char>) -> Option<
    PipelineError,
> {
    if !p.results.contains_key(id) {
        Some(PipelineError::NotReady)
    } else if p.results[id].owner != owner {
        Some(PipelineError::ForeignResult)
    } else {
        None
    }
}

/// The result is handed over and forgotten.
pub open spec fn taken(p: PipelineView, owner: Seq<char>, id: Seq<char>) -> PipelineView {
    if take_error(p, owner, id) is None {
        PipelineView {
            state: PipelineState::Idle,
            detail: Seq::empty(),
            results: p.results.remove(id),
            ..p
        }
    } else {
        p
    }
}

/// The result was not taken in time.
pub open spec fn result_expired(p: PipelineView, id: Seq<char>) -> PipelineView {
    if p.results.contains_key(id) {
        let rest = PipelineView { results: p.results.remove(id), ..p };
        if p.state == PipelineState::ResultReady {
            PipelineView { state: PipelineState::Idle, detail: Seq::empty(), ..rest }
        } else {
            rest
        }
    } else {
        p
    }
}

/// The session belongs to the owner: it is recorded, or nothing is recorded and
/// it is processed or has a result.
pub open spec fn owns(p: PipelineView, owner: Seq<char>, id: Seq<char>) -> bool {
    match p.active {
        Some(active) => active.id == id && active.owner == owner,
        None => is_claimed(p, id, owner) || (p.results.contains_key(id) && p.results[id].owner
            == owner),
    }
}

/// The recording, if there is one, is given up for cancellation.
pub open spec fn cancelling(p: PipelineView, owner: Seq<char>, id: Seq<char>) -> PipelineView {
    if owns(p, owner, id) {
        PipelineView { active: None, ..p }
    } else {
        p
    }
}

/// A result of another owner stands under the id.
pub open spec fn is_foreign(p: PipelineView, owner: Seq<char>, id: Seq<char>) -> bool {
    p.results.contains_key(id) && p.results[id].owner != owner
}

/// The session is cancelled.
pub open spec fn cancel_done(p: PipelineView, owner: Seq<char>, id: Seq<char>) -> PipelineView {
    if is_foreign(p, owner, id) {
        p
    } else {
        PipelineView {
            state: PipelineState::Idle,
            detail: Seq::empty(),
            processing: None,
            cancelled: if is_claimed(p, id, owner) && p.state != PipelineState::Error {
                p.cancelled.insert(id)
            } else {
                p.cancelled
            },
            results: p.results.remove(id),
            ..p
        }
    }
}

/// The language that cleanup is told: the detected one where none was forced.
pub open spec fn cloud_options_of(
    options: SessionOptionsView,
    transcript: TranscriptView,
) -> SessionOptionsView {
    if options.language == "auto"@ && transcript.language.len() > 0 {
        SessionOptionsView { language: transcript.language, ..options }
    } else {
        options
    }
}

/// The cleanup that a transcript gets.
pub open spec fn cloud_call_of(
    runtime: RuntimeConfigView,
    options: SessionOptionsView,
    transcript: TranscriptView,
    api_key: Option<Seq<char>>,
) -> CloudCallView {
    if !options.cloud_enabled {
        CloudCallView::Disabled
    } else if api_key is None && runtime.cloud_api_key_required {
        CloudCallView::NoKey
    } else {
        CloudCallView::Ask(
            polish_request_of(
                api_key,
                runtime.cloud_base_url,
                runtime.cloud_model,
                runtime.cloud_timeout_ms,
                transcript.text,
                cloud_options_of(options, transcript),
            ),
        )
    }
}

/// What came of cleanup: the answer counts only where it was asked for.
pub open spec fn outcome_of(call: CloudCallView, answer: Option<String>) -> CloudOutcome {
    match call {
        CloudCallView::Disabled => CloudOutcome::Disabled,
        CloudCallView::NoKey => CloudOutcome::NoKey,
        CloudCallView::Ask(_) => match answer {
            Some(text) => CloudOutcome::Answered(text),
            None => CloudOutcome::Failed,
        },
    }
}

/// The transcript after the entity rules of all directories.
pub open spec fn resolved_transcript(
    heard: TranscriptView,
    directories: Seq<Seq<VocabularyFileView>>,
) -> TranscriptView {
    TranscriptView { text: resolved_everywhere(heard.text, directories), ..heard }
}

/// The text to hand over, and whether it is the transcript for want of an
/// acceptable cleanup.
pub open spec fn chosen(
    transcript: Seq<char>,
    outcome: CloudOutcome,
    vocabulary: Seq<Seq<char>>,
) -> (Seq<char>, bool) {
    match outcome {
        CloudOutcome::Disabled => (transcript, false),
        CloudOutcome::NoKey => (transcript, true),
        CloudOutcome::Failed => (transcript, true),
        CloudOutcome::Answered(polished) => if rejection(
            transcript,
            polished@,
            vocabulary,
        ) is None {
            (polished@, false)
        } else {
            (transcript, true)
        },
    }
}

/// How long recording, recognition and cleanup took, in milliseconds.
pub open spec fn timing_fields(recording_ms: u64, asr_ms: u64, cloud_ms: u64) -> Seq<
    (Seq<char>, JsonValueView),
> {
    seq![
        ("recording_ms"@, JsonValueView::Whole(recording_ms)),
        ("asr_ms"@, JsonValueView::Whole(asr_ms)),
        ("cloud_ms"@, JsonValueView::Whole(cloud_ms)),
    ]
}

/// What a session hands over.
pub open spec fn final_result(
    transcript: Seq<char>,
    outcome: CloudOutcome,
    vocabulary: Seq<Seq<char>>,
    timings_json: Seq<char>,
) -> FinalResultView {
    FinalResultView {
        text: chosen(transcript, outcome, vocabulary).0,
        used_fallback: chosen(transcript, outcome, vocabulary).1,
        timings_json,
    }
}

/// What came of cleanup: the answer counts only where it was asked for.
pub fn cloud_outcome(call: &CloudCall, answer: Option<String>) -> (r: CloudOutcome)
    ensures
        r == outcome_of(call@, answer),
{
    match call {
        CloudCall::Disabled => CloudOutcome::Disabled,
        CloudCall::NoKey => CloudOutcome::NoKey,
        CloudCall::Ask(_) => match answer {
            Some(text) => CloudOutcome::Answered(text),
            None => CloudOutcome::Failed,
        },
    }
}

/// The transcript after the entity rules of all directories.
pub fn resolve_transcript(
    heard: TranscriptResult,
    directories: &[Vec<VocabularyFile>],
) -> (r: TranscriptResult)
    ensures
        r@ == resolved_transcript(heard@, directory_views(directories@)),
{
    TranscriptResult {
        text: resolve_contextual_entities(heard.text.as_str(), directories),
        language: heard.language,
    }
}

/// The cleanup that a transcript gets under the settings `runtime`.
pub fn polish_plan(
    runtime: &RuntimeConfig,
    session: &ProcessingSession,
    transcript: &TranscriptResult,
    api_key: &Option<String>,
) -> (r: CloudCall)
    ensures
        r@ == cloud_call_of(runtime@, session.options@, transcript@, option_view(*api_key)),
{
    if !session.options.cloud_enabled {
        return CloudCall::Disabled;
    }
    if api_key.is_none() && runtime.cloud_api_key_required {
        return CloudCall::NoKey;
    }
    let mut options = session.options.clone();
    if same_text(options.language.as_str(), "auto") && !transcript.language.as_str().is_empty() {
        options.language = transcript.language.clone();
    }
    assert(options@ =~= cloud_options_of(session.options@, transcript@));
    CloudCall::Ask(
        polish_request(
            api_key,
            runtime.cloud_base_url.as_str(),
            runtime.cloud_model.as_str(),
            runtime.cloud_timeout_ms,
            transcript.text.as_str(),
            &options,
        ),
    )
}

/// How long recording, recognition and cleanup took, as JSON.
pub fn timings_json(recording_ms: u64, asr_ms: u64, cloud_ms: u64) -> (r: String)
    ensures
        r@ == json_object_text(timing_fields(recording_ms, asr_ms, cloud_ms)),
{
    let mut fields: Vec<JsonField> = Vec::new();
    fields.push(whole_field("recording_ms", recording_ms));
    fields.push(whole_field("asr_ms", asr_ms));
    fields.push(whole_field("cloud_ms", cloud_ms));
    assert(field_views(fields@) =~= timing_fields(recording_ms, asr_ms, cloud_ms));
    json_object(fields.as_slice())
}

/// The result of a session: the cleaned-up text where it is acceptable, else the
/// transcript.
pub fn choose_result(
    transcript: String,
    outcome: CloudOutcome,
    vocabulary: &[String],
    timings_json: String,
) -> (r: FinalResult)
    ensures
        r@ == final_result(transcript@, outcome, views(vocabulary@), timings_json@),
{
    match outcome {
        CloudOutcome::Disabled => FinalResult {
            text: transcript,
            used_fallback: false,
            timings_json,
        },
        CloudOutcome::NoKey | CloudOutcome::Failed => FinalResult {
            text: transcript,
            used_fallback: true,
            timings_json,
        },
        CloudOutcome::Answered(polished) => {
            match polished_output_rejection(transcript.as_str(), polished.as_str(), vocabulary) {
                Some(_) => FinalResult { text: transcript, used_fallback: true, timings_json },
                None => FinalResult { text: polished, used_fallback: false, timings_json },
            }
        },
    }
}

fn claim_is(claim: &Option<Claim>, id: &str) -> (r: bool)
    ensures
        r == (claim matches Some(claim) && claim.id@ == id@),
{
    match claim {
        Some(claim) => same_text(claim.id.as_str(), id),
        None => false,
    }
}

fn claim_belongs(claim: &Option<Claim>, id: &str, owner: &str) -> (r: bool)
    ensures
        r == (claim matches Some(claim) && claim.id@ == id@ && claim.owner@ == owner@),
{
    match claim {
        Some(claim) => same_text(claim.id.as_str(), id) && same_text(claim.owner.as_str(), owner),
        None => false,
    }
}

/// The dictation pipeline.
pub struct Pipeline {
    state: PipelineState,
    detail: String,
    active: Option<ActiveSession>,
    processing: Option<Claim>,
    cancelled: StringHashSet,
    results: ResultTable,
    runtime: RuntimeConfig,
    asr: AsrRouter,
}

impl View for Pipeline {
    type V = PipelineView;

    closed spec fn view(&self) -> PipelineView {
        PipelineView {
            state: self.state,
            detail: self.detail@,
            active: match self.active {
                Some(active) => Some(active@),
                None => None,
            },
            processing: match self.processing {
                Some(claim) => Some((claim.id@, claim.owner@)),
                None => None,
            },
            cancelled: self.cancelled@,
            results: self.results@,
            runtime: self.runtime@,
        }
    }
}

impl Pipeline {
    /// The choice of the recognition provider, with what is known of the worker.
    pub closed spec fn router(&self) -> AsrRouter {
        self.asr
    }

    /// The books are in order, and the longest recording fits into memory and
    /// time.
    pub closed spec fn wf(&self) -> bool {
        &&& self.results.wf()
        &&& self.asr.wf()
        &&& self.runtime.max_recording_seconds <= u64::MAX / 32_000
    }

    /// A pipeline at rest.
    pub fn new(runtime: RuntimeConfig, asr: AsrRouter) -> (r: Pipeline)
        requires
            asr.wf(),
            runtime.max_recording_seconds <= u64::MAX / 32_000,
        ensures
            r.wf(),
            r@ == at_rest(runtime@),
            r.router() == asr,
    {
        Pipeline {
            state: PipelineState::Idle,
            detail: String::new(),
            active: None,
            processing: None,
            cancelled: StringHashSet::new(),
            results: ResultTable::new(),
            runtime,
            asr,
        }
    }

    /// The router, to report on the worker.
    pub fn asr_mut(&mut self) -> (r: &mut AsrRouter)
        requires
            old(self).wf(),
        ensures
            *r == old(self).router(),
            r.wf(),
            final(self)@ == old(self)@,
            final(self).router() == *final(r),
            final(r).wf() ==> final(self).wf(),
    {
        &mut self.asr
    }

    /// The settings in use.
    pub fn runtime(&self) -> (r: &RuntimeConfig)
        ensures
            r@ == self@.runtime,
    {
        &self.runtime
    }

    /// Takes over the settings, within their bounds. Says whether the worker
    /// process is to be killed because another provider is chosen.
    pub fn configure(&mut self, runtime: RuntimeConfig) -> (r: bool)
        requires
            old(self).wf(),
        ensures
            final(self).wf(),
            final(self)@ == (PipelineView { runtime: bounded(runtime@), ..old(self)@ }),
            ({
                let before = old(self).router().worker_state();
                let after = final(self).router().worker_state();
                &&& after.minutes() == clamped(runtime.model_idle_minutes, 1, 120)
                &&& after.settings() == before.settings()
                &&& after.generation() == before.generation()
                &&& runtime.asr_provider == AsrProvider::Local ==> {
                    &&& !r
                    &&& after.is_running() == before.is_running()
                    &&& after.model_ready() == before.model_ready()
                }
                &&& runtime.asr_provider != AsrProvider::Local ==> {
                    &&& r == before.is_running()
                    &&& !after.is_running()
                    &&& !after.model_ready()
                }
            }),
    {
        let used = bounded_config(&runtime);
        assert(used.asr_provider == used@.asr_provider);
        assert(used.model_idle_minutes == used@.model_idle_minutes);
        assert(used.max_recording_seconds == used@.max_recording_seconds);
        let kill = self.asr.configure(&used);
        self.runtime = used;
        kill
    }

    /// Whether the local worker is to be started ahead of its first use.
    pub fn prewarm_asr(&self) -> (r: bool)
        ensures
            r == (self@.runtime.asr_provider == AsrProvider::Local),
    {
        self.asr.prewarm(&self.runtime)
    }

    fn busy(&self) -> (r: bool)
        ensures
            r == is_busy(self@),
    {
        self.active.is_some() || self.state != PipelineState::Idle
    }

    /// What it takes to start recording, if a session can begin.
    pub fn begin(&self, session_id: &str, options: SessionOptions, domain: Vec<String>) -> (r:
        Result<BeginPlan, PipelineError>)
        requires
            self.wf(),
        ensures
            match r {
                Ok(plan) => {
                    &&& begin_error(self@, session_id@) is None
                    &&& plan.options@ == prepared(options@, views(domain@))
                    &&& plan.max_seconds == self@.runtime.max_recording_seconds
                    &&& plan.max_seconds * 32_000 <= u64::MAX
                    &&& plan.give_up_seconds == plan.max_seconds + GRACE_SECONDS
                },
                Err(error) => begin_error(self@, session_id@) == Some(error),
            },
    {
        let id = chars_of(session_id);
        if id.len() == 0 || !byte_len_at_most(id.as_slice(), MAX_SESSION_ID_BYTES) {
            return Err(PipelineError::InvalidSessionId);
        }
        if self.busy() {
            return Err(PipelineError::Busy);
        }
        let max_seconds: u64 = self.runtime.max_recording_seconds;
        assert(max_seconds == self@.runtime.max_recording_seconds);
        Ok(
            BeginPlan {
                options: prepare_options(options, domain),
                max_seconds,
                give_up_seconds: max_seconds + GRACE_SECONDS,
            },
        )
    }

    /// Takes note of a recording that has started, unless another session came
    /// first.
    pub fn recording_started(&mut self, session: ActiveSession) -> (r: Result<(), PipelineError>)
        requires
            old(self).wf(),
        ensures
            final(self).wf(),
            final(self).router() == old(self).router(),
            match r {
                Ok(_) => !is_busy(old(self)@) && final(self)@ == begun(old(self)@, session@),
                Err(error) => {
                    &&& is_busy(old(self)@)
                    &&& error == PipelineError::BecameBusy
                    &&& final(self)@ == old(self)@
                },
            },
    {
        if self.busy() {
            return Err(PipelineError::BecameBusy);
        }
        self.state = PipelineState::Recording;
        self.detail = String::new();
        self.cancelled.remove(session.id.as_str());
        self.active = Some(session);
        assert(self@ =~= begun(old(self)@, session@));
        Ok(())
    }

    /// Ends the recording and hands the session over. Only who began it can do
    /// so.
    pub fn end(&mut self, owner: &str, session_id: &str) -> (r: Result<
        ActiveSession,
        PipelineError,
    >)
        requires
            old(self).wf(),
        ensures
            final(self).wf(),
            final(self).router() == old(self).router(),
            final(self)@ == ended(old(self)@, owner@, session_id@),
            match r {
                Ok(session) => {
                    &&& end_error(old(self)@, owner@, session_id@) is None
                    &&& old(self)@.active == Some(session@)
                },
                Err(error) => end_error(old(self)@, owner@, session_id@) == Some(error),
            },
    {
        match self.active.take() {
            None => Err(PipelineError::NoActiveRecording),
            Some(active) => {
                if !same_text(active.id.as_str(), session_id) || !same_text(
                    active.owner.as_str(),
                    owner,
                ) {
                    self.active = Some(active);
                    return Err(PipelineError::Mismatch);
                }
                self.state = PipelineState::Transcribing;
                self.processing = Some(
                    Claim { id: active.id.clone(), owner: active.owner.clone() },
                );
                assert(self@ =~= ended(old(self)@, owner@, session_id@));
                Ok(active)
            },
        }
    }

    /// Takes the recorded audio, or the reason why there is none. In the second
    /// case the pipeline has failed, if the session is still current.
    pub fn recording_finished(
        &mut self,
        session: ActiveSession,
        audio: Result<Vec<u8>, String>,
        recorded_ms: u64,
    ) -> (r: Result<ProcessingSession, Failure>)
        requires
            old(self).wf(),
        ensures
            final(self).wf(),
            final(self).router() == old(self).router(),
            match audio {
                Ok(pcm) => {
                    &&& final(self)@ == old(self)@
                    &&& r is Ok
                    &&& r->Ok_0.id@ == session.id@
                    &&& r->Ok_0.owner@ == session.owner@
                    &&& r->Ok_0.options@ == session.options@
                    &&& r->Ok_0.pcm@ == pcm@
                    &&& r->Ok_0.recorded_ms == recorded_ms
                },
                Err(error) => {
                    &&& final(self)@ == failed(old(self)@, session.id@, error@)
                    &&& r is Err
                    &&& r->Err_0.message@ == error@
                    &&& r->Err_0.shown == is_current(old(self)@, session.id@)
                },
            },
    {
        match audio {
            Ok(pcm) => Ok(
                ProcessingSession {
                    id: session.id,
                    owner: session.owner,
                    options: session.options,
                    pcm,
                    recorded_ms,
                },
            ),
            Err(error) => {
                let shown = self.fail_if_current(session.id.as_str(), error.clone());
                Err(Failure { message: error, shown })
            },
        }
    }

    /// The call that turns the recording of a session into text, under the
    /// settings `settings`.
    pub fn transcribe(
        &self,
        settings: &RuntimeConfig,
        session: &ProcessingSession,
        api_key: &Option<String>,
    ) -> (r: Result<AsrCall, AsrError>)
        ensures
            ({
                let runtime = settings@;
                let key = option_view(*api_key);
                let pcm = session.pcm@;
                let language = session.options@.language;
                let terms = session.options@.vocabulary;
                let refused = runtime.asr_api_key_required && api_key is None;
                match runtime.asr_provider {
                    AsrProvider::Local => r == Ok::<AsrCall, AsrError>(AsrCall::Local),
                    AsrProvider::QwenApi => match r {
                        Ok(AsrCall::Qwen(request)) => {
                            &&& !refused && fits_wav(pcm) && fits_data_url(pcm)
                            &&& request@ == qwen_request_of(runtime, key, pcm, language, terms)
                        },
                        Ok(_) => false,
                        Err(AsrError::KeyUnavailable) => refused,
                        Err(AsrError::TooLargeForWav) => !refused && !fits_wav(pcm),
                        Err(AsrError::TooLargeForDataUrl) => !refused && fits_wav(pcm)
                            && !fits_data_url(pcm),
                        Err(_) => false,
                    },
                    AsrProvider::OpenaiCompatible => match r {
                        Ok(AsrCall::OpenAi(request)) => {
                            &&& !refused && fits_wav(pcm)
                            &&& request@ == transcription_request_of(
                                runtime,
                                key,
                                pcm,
                                language,
                                terms,
                            )
                        },
                        Ok(_) => false,
                        Err(AsrError::KeyUnavailable) => refused,
                        Err(AsrError::TooLargeForWav) => !refused && !fits_wav(pcm),
                        Err(_) => false,
                    },
                }
            }),
    {
        self.asr.transcribe(
            settings,
            api_key,
            session.pcm.as_slice(),
            session.options.language.as_str(),
            session.options.vocabulary.as_slice(),
        )
    }

    /// Notes that processing failed, if it is still that of this session. Says
    /// whether that is so: the failure is then to be taken back after
    /// [`ERROR_SECONDS`].
    pub fn fail_if_current(&mut self, session_id: &str, detail: String) -> (r: bool)
        requires
            old(self).wf(),
        ensures
            final(self).wf(),
            final(self).router() == old(self).router(),
            r == is_current(old(self)@, session_id@),
            final(self)@ == failed(old(self)@, session_id@, detail@),
    {
        if !claim_is(&self.processing, session_id) {
            return false;
        }
        self.state = PipelineState::Error;
        self.detail = detail;
        assert(self@ =~= failed(old(self)@, session_id@, detail@));
        true
    }

    /// Takes a failure back, if it is still that of this session.
    pub fn expire_error(&mut self, session_id: &str)
        requires
            old(self).wf(),
        ensures
            final(self).wf(),
            final(self).router() == old(self).router(),
            final(self)@ == error_expired(old(self)@, session_id@),
    {
        if self.state == PipelineState::Error && claim_is(&self.processing, session_id) {
            self.processing = None;
            self.state = PipelineState::Idle;
            self.detail = String::new();
            assert(self@ =~= error_expired(old(self)@, session_id@));
        }
    }

    /// Starts cleanup. Says whether the session is still wanted.
    pub fn mark_polishing(&mut self, session_id: &str) -> (r: bool)
        requires
            old(self).wf(),
        ensures
            final(self).wf(),
            final(self).router() == old(self).router(),
            r == may_polish(old(self)@, session_id@),
            final(self)@ == polishing(old(self)@, session_id@),
    {
        if self.cancelled.remove(session_id) {
            assert(self@ =~= polishing(old(self)@, session_id@));
            return false;
        }
        assert(self.cancelled@ =~= old(self).cancelled@);
        if !claim_is(&self.processing, session_id) {
            return false;
        }
        self.state = PipelineState::Polishing;
        self.detail = String::new();
        assert(self@ =~= polishing(old(self)@, session_id@));
        true
    }

    /// Chooses the text to hand over, from the transcript and the answer to what
    /// was asked, and keeps it for its owner, unless the session is gone.
    pub fn polish_and_store(
        &mut self,
        session: &ProcessingSession,
        transcript: String,
        call: &CloudCall,
        answer: Option<String>,
        asr_ms: u64,
        cloud_ms: u64,
        now: u64,
    ) -> (r: Option<FinalResult>)
        requires
            old(self).wf(),
        ensures
            final(self).wf(),
            final(self).router() == old(self).router(),
            ({
                let result = final_result(
                    transcript@,
                    outcome_of(call@, answer),
                    session.options@.vocabulary,
                    json_object_text(timing_fields(session.recorded_ms, asr_ms, cloud_ms)),
                );
                &&& final(self)@ == stored(
                    old(self)@,
                    session.id@,
                    session.owner@,
                    result,
                    now,
                )
                &&& match r {
                    Some(value) => {
                        &&& may_store(old(self)@, session.id@, session.owner@)
                        &&& value@ == result
                    },
                    None => !may_store(old(self)@, session.id@, session.owner@),
                }
            }),
    {
        let timings = timings_json(session.recorded_ms, asr_ms, cloud_ms);
        let result = choose_result(
            transcript,
            cloud_outcome(call, answer),
            session.options.vocabulary.as_slice(),
            timings,
        );
        self.store_result(session.id.as_str(), session.owner.as_str(), result, now)
    }

    /// Keeps a result for its owner, unless the session is gone.
    pub fn store_result(
        &mut self,
        session_id: &str,
        owner: &str,
        result: FinalResult,
        now: u64,
    ) -> (r: Option<FinalResult>)
        requires
            old(self).wf(),
        ensures
            final(self).wf(),
            final(self).router() == old(self).router(),
            final(self)@ == stored(old(self)@, session_id@, owner@, result@, now),
            match r {
                Some(value) => may_store(old(self)@, session_id@, owner@) && value@ == result@,
                None => !may_store(old(self)@, session_id@, owner@),
            },
    {
        if self.cancelled.remove(session_id) {
            assert(self@ =~= stored(old(self)@, session_id@, owner@, result@, now));
            return None;
        }
        assert(self.cancelled@ =~= old(self).cancelled@);
        if !claim_belongs(&self.processing, session_id, owner) {
            return None;
        }
        self.results.retain_unexpired(now);
        let item = StoredResult {
            owner: owner.to_owned(),
            value: result.clone(),
            expires_at: now as u128 + RESULT_NANOSECONDS as u128,
        };
        self.results.insert(session_id.to_owned(), item);
        self.processing = None;
        self.state = PipelineState::ResultReady;
        self.detail = String::new();
        assert(self@ =~= stored(old(self)@, session_id@, owner@, result@, now));
        Some(result)
    }

    /// Hands a result over and forgets it. Only its owner gets it.
    pub fn take_result(&mut self, owner: &str, session_id: &str) -> (r: Result<
        FinalResult,
        PipelineError,
    >)
        requires
            old(self).wf(),
        ensures
            final(self).wf(),
            final(self).router() == old(self).router(),
            final(self)@ == taken(old(self)@, owner@, session_id@),
            match r {
                Ok(value) => {
                    &&& take_error(old(self)@, owner@, session_id@) is None
                    &&& value@ == old(self)@.results[session_id@].value
                },
                Err(error) => take_error(old(self)@, owner@, session_id@) == Some(error),
            },
    {
        match self.results.remove(session_id) {
            None => {
                assert(self@ =~= old(self)@);
                Err(PipelineError::NotReady)
            },
            Some(item) => {
                if !same_text(item.owner.as_str(), owner) {
                    self.results.insert(session_id.to_owned(), item);
                    assert(self.results@ =~= old(self).results@);
                    assert(self@ =~= old(self)@);
                    return Err(PipelineError::ForeignResult);
                }
                self.state = PipelineState::Idle;
                self.detail = String::new();
                assert(self@ =~= taken(old(self)@, owner@, session_id@));
                Ok(item.value)
            },
        }
    }

    /// Starts to cancel a session. Only its owner can do so. Says whether there
    /// is a recording to stop; once it has stopped, [`Pipeline::cancelled`] has
    /// to follow.
    pub fn cancel(&mut self, owner: &str, session_id: &str) -> (r: Result<bool, PipelineError>)
        requires
            old(self).wf(),
        ensures
            final(self).wf(),
            final(self).router() == old(self).router(),
            final(self)@ == cancelling(old(self)@, owner@, session_id@),
            match r {
                Ok(stop) => {
                    &&& owns(old(self)@, owner@, session_id@)
                    &&& stop == (old(self)@.active is Some)
                },
                Err(error) => {
                    &&& !owns(old(self)@, owner@, session_id@)
                    &&& error == PipelineError::Mismatch
                },
            },
    {
        match self.active.take() {
            Some(active) => {
                if !same_text(active.owner.as_str(), owner) || !same_text(
                    active.id.as_str(),
                    session_id,
                ) {
                    self.active = Some(active);
                    return Err(PipelineError::Mismatch);
                }
                assert(self@ =~= cancelling(old(self)@, owner@, session_id@));
                Ok(true)
            },
            None => {
                let owns_processing = claim_belongs(&self.processing, session_id, owner);
                let owns_result = match self.results.get(session_id) {
                    Some(item) => same_text(item.owner.as_str(), owner),
                    None => false,
                };
                assert(self@ =~= old(self)@);
                if !owns_processing && !owns_result {
                    return Err(PipelineError::Mismatch);
                }
                Ok(false)
            },
        }
    }

    /// Completes the cancellation of a session.
    pub fn cancelled(&mut self, owner: &str, session_id: &str) -> (r: Result<(), PipelineError>)
        requires
            old(self).wf(),
        ensures
            final(self).wf(),
            final(self).router() == old(self).router(),
            final(self)@ == cancel_done(old(self)@, owner@, session_id@),
            match r {
                Ok(_) => !is_foreign(old(self)@, owner@, session_id@),
                Err(error) => {
                    &&& is_foreign(old(self)@, owner@, session_id@)
                    &&& error == PipelineError::ForeignResult
                },
            },
    {
        match self.results.get(session_id) {
            Some(item) => {
                if !same_text(item.owner.as_str(), owner) {
                    return Err(PipelineError::ForeignResult);
                }
            },
            None => {},
        }
        let was_processing = claim_belongs(&self.processing, session_id, owner);
        self.processing = None;
        if was_processing && self.state != PipelineState::Error {
            self.cancelled.insert(session_id.to_owned());
        }
        self.results.remove(session_id);
        self.state = PipelineState::Idle;
        self.detail = String::new();
        assert(self@ =~= cancel_done(old(self)@, owner@, session_id@));
        Ok(())
    }

    /// Where the pipeline stands, whether recognition is ready, and what went
    /// wrong.
    pub fn status(&self) -> (r: (PipelineState, Readiness, String))
        ensures
            r.0 == self@.state,
            r.1 == (if self@.runtime.asr_provider == AsrProvider::Local {
                Readiness::Known(self.router().worker_state().model_ready())
            } else if !self@.runtime.asr_api_key_required {
                Readiness::Known(true)
            } else {
                Readiness::WithKey
            }),
            r.2@ == self@.detail,
    {
        assert(self.runtime.asr_provider == self@.runtime.asr_provider);
        assert(self.runtime.asr_api_key_required == self@.runtime.asr_api_key_required);
        (self.state, self.asr.is_ready(&self.runtime), self.detail.clone())
    }

    /// Drops a result that was not taken in time.
    pub fn expire_result(&mut self, session_id: &str)
        requires
            old(self).wf(),
        ensures
            final(self).wf(),
            final(self).router() == old(self).router(),
            final(self)@ == result_expired(old(self)@, session_id@),
    {
        let removed = self.results.remove(session_id);
        if removed.is_some() {
            if self.state == PipelineState::ResultReady {
                self.state = PipelineState::Idle;
                self.detail = String::new();
            }
        } else {
            assert(self.results@ =~= old(self).results@);
        }
        assert(self@ =~= result_expired(old(self)@, session_id@));
    }
}

} // verus!
