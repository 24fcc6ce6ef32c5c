//! What the bus service announces: the stages of a session, and codes in place of
//! error messages. Nothing that was dictated is ever announced.
use crate::outside::{to_unicode_lowercase, unicode_lowercase};
use crate::protocol::PipelineState;
use crate::text::{all_ascii, chars_of, contains, includes, lemma_contains_between, lowercase};
use vstd::prelude::*;

verus! {

/// Code of a failure to hear anything.
pub const AUDIO_FAILED: &'static str = "audio_failed";

/// Code of a failure to recognize.
pub const ASR_FAILED: &'static str = "asr_failed";

/// Code of any other failure.
pub const PIPELINE_FAILED: &'static str = "pipeline_failed";

/// The code of an error message in small letters.
pub open spec fn code_for(lowered: Seq<char>) -> Seq<char> {
    if contains(lowered, "no speech"@) || contains(lowered, "audio"@) {
        AUDIO_FAILED@
    } else if contains(lowered, "worker"@) || contains(lowered, "asr"@) {
        ASR_FAILED@
    } else {
        PIPELINE_FAILED@
    }
}

/// The code of an error message in small letters.
pub fn error_code_of(lowered: &str) -> (r: String)
    ensures
        r@ == code_for(lowered@),
{
    let message = chars_of(lowered);
    let no_speech = chars_of("no speech");
    let audio = chars_of("audio");
    let worker = chars_of("worker");
    let asr = chars_of("asr");
    if includes(message.as_slice(), no_speech.as_slice()) || includes(
        message.as_slice(),
        audio.as_slice(),
    ) {
        AUDIO_FAILED.to_owned()
    } else if includes(message.as_slice(), worker.as_slice()) || includes(
        message.as_slice(),
        asr.as_slice(),
    ) {
        ASR_FAILED.to_owned()
    } else {
        PIPELINE_FAILED.to_owned()
    }
}

/// The code that is announced in place of an error message.
pub fn error_code(message: &str) -> (r: String)
    ensures
        r@ == code_for(unicode_lowercase(message@)),
        all_ascii(message@) ==> r@ == code_for(lowercase(message@)),
{
    let lowered = to_unicode_lowercase(message);
    error_code_of(lowered.as_str())
}

/// A request without a sender.
#[derive(Debug, Clone, Copy, PartialEq, Eq, Structural)]
pub struct NoCaller;

impl NoCaller {
    /// The message shown for the error.
    pub fn message(self) -> (r: String)
        ensures
            r@ == "DBus caller has no unique name"@,
    {
        "DBus caller has no unique name".to_owned()
    }
}

/// The owner of what the sender of a request begins.
pub fn caller(sender: Option<String>) -> (r: Result<String, NoCaller>)
    ensures
        match sender {
            Some(name) => r == Ok::<String, NoCaller>(name),
            None => r == Err::<String, NoCaller>(NoCaller),
        },
{
    match sender {
        Some(name) => Ok(name),
        None => Err(NoCaller),
    }
}

/// What happened to a session that was asked to end.
#[derive(Debug)]
pub enum EndEvent {
    /// The recording has ended, or could not.
    Ended(Result<(), String>),
    /// Recognition is through, or has failed.
    Transcribed(Result<(), String>),
    /// Cleanup may start, or the session is gone.
    Marked(bool),
    /// The result is stored, or the session is gone.
    Stored(bool),
}

/// What to do next for the session.
#[derive(Debug, Clone, Copy, PartialEq, Eq, Structural)]
pub enum EndTask {
    Transcribe,
    MarkPolishing,
    Polish,
    /// Signal that the result is ready, and stop.
    SignalResult,
    Stop,
}

/// A state to announce with its detail.
#[derive(Debug)]
pub struct Announcement {
    pub state: PipelineState,
    pub detail: String,
}

/// What to announce, and what to do next.
#[derive(Debug)]
pub struct EndStep {
    pub announce: Option<Announcement>,
    pub task: EndTask,
}

/// The step announces `state` with `detail` and goes on with `task`.
pub open spec fn announces(
    step: EndStep,
    state: PipelineState,
    detail: Seq<char>,
    task: EndTask,
) -> bool {
    &&& step.announce matches Some(announcement)
    &&& announcement.state == state
    &&& announcement.detail@ == detail
    &&& step.task == task
}

/// The step announces nothing and goes on with `task`.
pub open spec fn is_silent(step: EndStep, task: EndTask) -> bool {
    step.announce is None && step.task == task
}

fn announce(state: PipelineState, detail: String, task: EndTask) -> (r: EndStep)
    ensures
        announces(r, state, detail@, task),
{
    EndStep { announce: Some(Announcement { state, detail }), task }
}

/// The stages of a session that was asked to end: each outcome is announced, and
/// a session that is gone is not heard of again.
pub fn end_step(event: EndEvent) -> (r: EndStep)
    ensures
        match event {
            EndEvent::Ended(Ok(_)) => announces(
                r,
                PipelineState::Transcribing,
                Seq::empty(),
                EndTask::Transcribe,
            ),
            EndEvent::Transcribed(Ok(_)) => is_silent(r, EndTask::MarkPolishing),
            EndEvent::Ended(Err(error)) | EndEvent::Transcribed(Err(error)) => announces(
                r,
                PipelineState::Error,
                code_for(unicode_lowercase(error@)),
                EndTask::Stop,
            ),
            EndEvent::Marked(true) => announces(
                r,
                PipelineState::Polishing,
                Seq::empty(),
                EndTask::Polish,
            ),
            EndEvent::Stored(true) => announces(
                r,
                PipelineState::ResultReady,
                Seq::empty(),
                EndTask::SignalResult,
            ),
            EndEvent::Marked(false) | EndEvent::Stored(false) => is_silent(r, EndTask::Stop),
        },
{
    match event {
        EndEvent::Ended(Ok(_)) => announce(
            PipelineState::Transcribing,
            String::new(),
            EndTask::Transcribe,
        ),
        EndEvent::Transcribed(Ok(_)) => EndStep { announce: None, task: EndTask::MarkPolishing },
        EndEvent::Ended(Err(error)) | EndEvent::Transcribed(Err(error)) => announce(
            PipelineState::Error,
            error_code(error.as_str()),
            EndTask::Stop,
        ),
        EndEvent::Marked(wanted) => if wanted {
            announce(PipelineState::Polishing, String::new(), EndTask::Polish)
        } else {
            EndStep { announce: None, task: EndTask::Stop }
        },
        EndEvent::Stored(stored) => if stored {
            announce(PipelineState::ResultReady, String::new(), EndTask::SignalResult)
        } else {
            EndStep { announce: None, task: EndTask::Stop }
        },
    }
}

/// An announced detail is a code: there are three of them, whatever the message.
pub proof fn details_are_codes(lowered: Seq<char>)
    ensures
        code_for(lowered) == AUDIO_FAILED@ || code_for(lowered) == ASR_FAILED@ || code_for(lowered)
            == PIPELINE_FAILED@,
{
}

/// The words of a message decide on its code, wherever they stand in it: what
/// speaks of the audio comes before what speaks of recognition.
pub proof fn codes_follow_the_words_of_a_message(a: Seq<char>, b: Seq<char>)
    ensures
        code_for(a + "no speech"@ + b) == "audio_failed"@,
        code_for(a + "audio"@ + b) == "audio_failed"@,
        ({
            let worker = a + "worker"@ + b;
            !contains(worker, "no speech"@) && !contains(worker, "audio"@) ==> code_for(worker)
                == "asr_failed"@
        }),
        ({
            let asr = a + "asr"@ + b;
            !contains(asr, "no speech"@) && !contains(asr, "audio"@) ==> code_for(asr)
                == "asr_failed"@
        }),
        !contains(a, "no speech"@) && !contains(a, "audio"@) && !contains(a, "worker"@)
            && !contains(a, "asr"@) ==> code_for(a) == "pipeline_failed"@,
{
    lemma_contains_between(a, "no speech"@, b);
    lemma_contains_between(a, "audio"@, b);
    lemma_contains_between(a, "worker"@, b);
    lemma_contains_between(a, "asr"@, b);
}

} // verus!
