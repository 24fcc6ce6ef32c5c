//! Data exchanged between the input method, the daemon and the recognition
//! worker, with the defaults that hold before anything is configured.
use crate::text::{copy_texts, views};
use vstd::prelude::*;

verus! {

/// Version of the worker protocol.
pub const PROTOCOL_VERSION: u32 = 1;

/// Text cleanup endpoint used until another one is configured.
pub const DEFAULT_CLOUD_BASE_URL: &'static str =
    "https://generativelanguage.googleapis.com/v1beta/openai";

/// Text cleanup model used until another one is configured.
pub const DEFAULT_CLOUD_MODEL: &'static str = "gemini-3.5-flash-lite";

/// Recognition endpoint used until another one is configured.
pub const DEFAULT_ASR_BASE_URL: &'static str = "https://dashscope.aliyuncs.com/compatible-mode/v1";

/// Recognition model used until another one is configured.
pub const DEFAULT_ASR_MODEL: &'static str = "qwen3-asr-flash";

/// Where the single dictation pipeline stands.
#[derive(Debug, Clone, Copy, PartialEq, Eq, Structural)]
pub enum PipelineState {
    Idle,
    Recording,
    LoadingModel,
    Transcribing,
    Polishing,
    ResultReady,
    Error,
}

impl PipelineState {
    /// The name under which the state is announced.
    pub open spec fn name(self) -> Seq<char> {
        match self {
            PipelineState::Idle => "idle"@,
            PipelineState::Recording => "recording"@,
            PipelineState::LoadingModel => "loading_model"@,
            PipelineState::Transcribing => "transcribing"@,
            PipelineState::Polishing => "polishing"@,
            PipelineState::ResultReady => "result_ready"@,
            PipelineState::Error => "error"@,
        }
    }

    /// The name under which the state is announced.
    pub fn as_str(self) -> (r: &'static str)
        ensures
            r@ == self.name(),
    {
        match self {
            PipelineState::Idle => "idle",
            PipelineState::Recording => "recording",
            PipelineState::LoadingModel => "loading_model",
            PipelineState::Transcribing => "transcribing",
            PipelineState::Polishing => "polishing",
            PipelineState::ResultReady => "result_ready",
            PipelineState::Error => "error",
        }
    }
}

/// Different states never share a name.
pub proof fn state_names_are_distinct(a: PipelineState, b: PipelineState)
    ensures
        a.name() == b.name() ==> a == b,
{
    reveal_strlit("idle");
    reveal_strlit("recording");
    reveal_strlit("loading_model");
    reveal_strlit("transcribing");
    reveal_strlit("polishing");
    reveal_strlit("result_ready");
    reveal_strlit("error");
    if a.name() == b.name() {
        assert(a.name().len() == b.name().len());
        assert(a.name()[0] == b.name()[0]);
    }
}

/// Who turns speech into text.
#[derive(Debug, Clone, Copy, PartialEq, Eq, Structural)]
pub enum AsrProvider {
    /// The isolated worker process on this machine.
    Local,
    /// The Qwen speech recognition service.
    QwenApi,
    /// A service with the standard transcription contract.
    OpenaiCompatible,
}

/// What the input method asks of one dictation session.
#[derive(Debug)]
pub struct SessionOptions {
    pub language: String,
    pub vocabulary: Vec<String>,
    pub context_before: String,
    pub context_after: String,
    pub cloud_enabled: bool,
}

/// The text held by [`SessionOptions`].
#[verifier::ext_equal]
pub struct SessionOptionsView {
    pub language: Seq<char>,
    pub vocabulary: Seq<Seq<char>>,
    pub context_before: Seq<char>,
    pub context_after: Seq<char>,
    pub cloud_enabled: bool,
}

impl View for SessionOptions {
    type V = SessionOptionsView;

    open spec fn view(&self) -> SessionOptionsView {
        SessionOptionsView {
            language: self.language@,
            vocabulary: views(self.vocabulary@),
            context_before: self.context_before@,
            context_after: self.context_after@,
            cloud_enabled: self.cloud_enabled,
        }
    }
}

impl Clone for SessionOptions {
    fn clone(&self) -> (r: Self)
        ensures
            r@ == self@,
    {
        SessionOptions {
            language: self.language.clone(),
            vocabulary: copy_texts(self.vocabulary.as_slice()),
            context_before: self.context_before.clone(),
            context_after: self.context_after.clone(),
            cloud_enabled: self.cloud_enabled,
        }
    }
}

impl Default for SessionOptions {
    fn default() -> (r: Self)
        ensures
            r.language@ == "auto"@,
            r.vocabulary@.len() == 0,
            r.context_before@.len() == 0,
            r.context_after@.len() == 0,
            r.cloud_enabled,
    {
        SessionOptions {
            language: "auto".to_owned(),
            vocabulary: Vec::new(),
            context_before: String::new(),
            context_after: String::new(),
            cloud_enabled: true,
        }
    }
}

/// Settings that can change while the daemon runs.
#[derive(Debug)]
pub struct RuntimeConfig {
    pub asr_provider: AsrProvider,
    pub asr_base_url: String,
    pub asr_model: String,
    pub asr_api_key_required: bool,
    pub asr_timeout_ms: u64,
    pub cloud_base_url: String,
    pub cloud_model: String,
    pub cloud_api_key_required: bool,
    pub cloud_timeout_ms: u64,
    pub model_idle_minutes: u64,
    pub max_recording_seconds: u64,
}

/// The text and numbers held by [`RuntimeConfig`].
#[verifier::ext_equal]
pub struct RuntimeConfigView {
    pub asr_provider: AsrProvider,
    pub asr_base_url: Seq<char>,
    pub asr_model: Seq<char>,
    pub asr_api_key_required: bool,
    pub asr_timeout_ms: u64,
    pub cloud_base_url: Seq<char>,
    pub cloud_model: Seq<char>,
    pub cloud_api_key_required: bool,
    pub cloud_timeout_ms: u64,
    pub model_idle_minutes: u64,
    pub max_recording_seconds: u64,
}

impl View for RuntimeConfig {
    type V = RuntimeConfigView;

    open spec fn view(&self) -> RuntimeConfigView {
        RuntimeConfigView {
            asr_provider: self.asr_provider,
            asr_base_url: self.asr_base_url@,
            asr_model: self.asr_model@,
            asr_api_key_required: self.asr_api_key_required,
            asr_timeout_ms: self.asr_timeout_ms,
            cloud_base_url: self.cloud_base_url@,
            cloud_model: self.cloud_model@,
            cloud_api_key_required: self.cloud_api_key_required,
            cloud_timeout_ms: self.cloud_timeout_ms,
            model_idle_minutes: self.model_idle_minutes,
            max_recording_seconds: self.max_recording_seconds,
        }
    }
}

impl Clone for RuntimeConfig {
    fn clone(&self) -> (r: Self)
        ensures
            r@ == self@,
    {
        RuntimeConfig {
            asr_provider: self.asr_provider,
            asr_base_url: self.asr_base_url.clone(),
            asr_model: self.asr_model.clone(),
            asr_api_key_required: self.asr_api_key_required,
            asr_timeout_ms: self.asr_timeout_ms,
            cloud_base_url: self.cloud_base_url.clone(),
            cloud_model: self.cloud_model.clone(),
            cloud_api_key_required: self.cloud_api_key_required,
            cloud_timeout_ms: self.cloud_timeout_ms,
            model_idle_minutes: self.model_idle_minutes,
            max_recording_seconds: self.max_recording_seconds,
        }
    }
}

/// The settings that hold before anything is configured.
pub open spec fn default_config() -> RuntimeConfigView {
    RuntimeConfigView {
        asr_provider: AsrProvider::Local,
        asr_base_url: DEFAULT_ASR_BASE_URL@,
        asr_model: DEFAULT_ASR_MODEL@,
        asr_api_key_required: true,
        asr_timeout_ms: 30_000,
        cloud_base_url: DEFAULT_CLOUD_BASE_URL@,
        cloud_model: DEFAULT_CLOUD_MODEL@,
        cloud_api_key_required: true,
        cloud_timeout_ms: 4_000,
        model_idle_minutes: 15,
        max_recording_seconds: 120,
    }
}

impl Default for RuntimeConfig {
    fn default() -> (r: Self)
        ensures
            r@ == default_config(),
    {
        RuntimeConfig {
            asr_provider: AsrProvider::Local,
            asr_base_url: DEFAULT_ASR_BASE_URL.to_owned(),
            asr_model: DEFAULT_ASR_MODEL.to_owned(),
            asr_api_key_required: true,
            asr_timeout_ms: 30_000,
            cloud_base_url: DEFAULT_CLOUD_BASE_URL.to_owned(),
            cloud_model: DEFAULT_CLOUD_MODEL.to_owned(),
            cloud_api_key_required: true,
            cloud_timeout_ms: 4_000,
            model_idle_minutes: 15,
            max_recording_seconds: 120,
        }
    }
}

/// What recognition heard.
#[derive(Debug)]
pub struct TranscriptResult {
    pub text: String,
    pub language: String,
}

/// The text held by [`TranscriptResult`].
#[verifier::ext_equal]
pub struct TranscriptView {
    pub text: Seq<char>,
    pub language: Seq<char>,
}

impl View for TranscriptResult {
    type V = TranscriptView;

    open spec fn view(&self) -> TranscriptView {
        TranscriptView { text: self.text@, language: self.language@ }
    }
}

/// What a finished session hands over.
#[derive(Debug)]
pub struct FinalResult {
    pub text: String,
    pub used_fallback: bool,
    pub timings_json: String,
}

/// The text held by [`FinalResult`].
#[verifier::ext_equal]
pub struct FinalResultView {
    pub text: Seq<char>,
    pub used_fallback: bool,
    pub timings_json: Seq<char>,
}

impl View for FinalResult {
    type V = FinalResultView;

    open spec fn view(&self) -> FinalResultView {
        FinalResultView {
            text: self.text@,
            used_fallback: self.used_fallback,
            timings_json: self.timings_json@,
        }
    }
}

impl Clone for FinalResult {
    fn clone(&self) -> (r: Self)
        ensures
            r@ == self@,
    {
        FinalResult {
            text: self.text.clone(),
            used_fallback: self.used_fallback,
            timings_json: self.timings_json.clone(),
        }
    }
}

/// Header of a request to the recognition worker.
#[derive(Debug)]
pub struct WorkerRequest {
    pub version: u32,
    pub request_id: String,
    pub sample_rate: u32,
    pub language: String,
    pub vocabulary: Vec<String>,
    pub max_new_tokens: u32,
    pub pcm_bytes: u32,
}

/// The text and numbers held by [`WorkerRequest`].
#[verifier::ext_equal]
pub struct WorkerRequestView {
    pub version: u32,
    pub request_id: Seq<char>,
    pub sample_rate: u32,
    pub language: Seq<char>,
    pub vocabulary: Seq<Seq<char>>,
    pub max_new_tokens: u32,
    pub pcm_bytes: u32,
}

impl View for WorkerRequest {
    type V = WorkerRequestView;

    open spec fn view(&self) -> WorkerRequestView {
        WorkerRequestView {
            version: self.version,
            request_id: self.request_id@,
            sample_rate: self.sample_rate,
            language: self.language@,
            vocabulary: views(self.vocabulary@),
            max_new_tokens: self.max_new_tokens,
            pcm_bytes: self.pcm_bytes,
        }
    }
}

/// Answer of the recognition worker.
#[derive(Debug)]
pub struct WorkerResponse {
    pub version: u32,
    pub request_id: String,
    pub ok: bool,
    pub text: String,
    pub language: String,
    pub error: String,
    pub inference_ms: u64,
}

} // verus!
