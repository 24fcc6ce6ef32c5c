//! What callers get from the central operations, whatever they hand in.
use crate::asr::{
    pcm_to_wav, qwen_transcript, recordings_fit_by_their_length, the_first_reported_language_counts,
    wav_fields_agree_with_the_content, wav_keeps_the_samples, wav_of, AsrCall, AsrError, AsrRouter,
    QwenChoice,
};
use crate::audio::{AudioError, Recording};
use crate::dbus::{
    codes_follow_the_words_of_a_message, end_step, error_code, EndEvent, EndStep, EndTask,
};
use crate::openai_compat::{polish_answer, MessageContent, NoText};
use crate::pipeline::{choose_result, CloudOutcome};
use crate::prompt::{
    a_rule_replaces_what_was_heard, apply_vocabulary_corrections, excuses_nothing, has_sides,
    only_used_entries_excuse_a_lost_token, polished_output_rejection, technical_tokens_of,
};
use crate::protocol::{
    AsrProvider, FinalResult, PipelineState, RuntimeConfig, TranscriptResult, WorkerRequest,
};
use crate::secrets::{
    check_entered_key, keys_are_kept_apart, set_asr_api_key, set_cloud_api_key, SecretError,
    SecretWrite,
};
use crate::text::{
    all_ascii, contains, is_white_space, lemma_blank, lowercase, occurs_at, trim,
    trimming_takes_off_white_space_alone, views,
};
use crate::vocabulary::{
    a_misheard_word_becomes_the_entity, misheard_there, resolve_with_rules, rule_views, score,
    EntityRule,
};
use crate::worker::{
    frames_can_be_taken_apart, from_le32, request_frame, response_length,
    the_budget_covers_the_recording, worker_request, WorkerError,
};
use vstd::prelude::*;

verus! {

/// Where the cues for the entity outnumber those for the ordinary word, resolving
/// puts its canonical spelling in the place of a misheard word and changes nothing
/// else, whichever of the aliases was heard.
pub proof fn misheard_words_are_resolved(
    left: Seq<char>,
    written: Seq<char>,
    right: Seq<char>,
    value: &str,
    rules: &[EntityRule],
    k: int,
    r: String,
)
    requires
        rules@.len() == 1,
        value@ == left + written + right,
        misheard_there(
            left,
            written,
            right,
            views(rules@[0].aliases@),
            rules@[0].canonical@,
            k,
        ),
        score(value@, views(rules@[0].entity_context@)) > score(
            value@,
            views(rules@[0].ordinary_context@),
        ),
        call_ensures(resolve_with_rules, (value, rules), r),
    ensures
        r@ == left + rules@[0].canonical@ + right,
{
    let rule = rules@[0]@;
    assert(rule_views(rules@) =~= seq![rule]);
    a_misheard_word_becomes_the_entity(left, written, right, rule, k);
}

/// Cleaned-up text that uses nothing of the vocabulary is accepted only if every
/// technical token of the dictation stands in it, in any case.
pub proof fn accepted_text_keeps_the_tokens(
    raw: &str,
    polished: &str,
    vocabulary: &[String],
    k: int,
    r: Option<&'static str>,
)
    requires
        forall|i: int|
            0 <= i < vocabulary@.len() ==> excuses_nothing(
                raw@,
                polished@,
                (#[trigger] vocabulary@[i])@,
            ),
        0 <= k < technical_tokens_of(raw@).len(),
        call_ensures(polished_output_rejection, (raw, polished, vocabulary), r),
        r is None,
    ensures
        contains(lowercase(trim(polished@)), lowercase(technical_tokens_of(raw@)[k])),
{
    let terms = views(vocabulary@);
    assert forall|i: int| 0 <= i < terms.len() implies excuses_nothing(
        raw@,
        polished@,
        #[trigger] terms[i],
    ) by {
        assert(terms[i] == vocabulary@[i]@);
    }
    only_used_entries_excuse_a_lost_token(raw@, polished@, terms, k);
}

/// An answer that is not rejected is the text handed over; one that is rejected
/// gives way to the transcript, and the fallback is reported.
pub proof fn accepted_answers_are_the_result(
    transcript: String,
    answer: String,
    vocabulary: &[String],
    timings_json: String,
    raw: &str,
    polished: &str,
    verdict: Option<&'static str>,
    r: FinalResult,
)
    requires
        raw@ == transcript@,
        polished@ == answer@,
        call_ensures(polished_output_rejection, (raw, polished, vocabulary), verdict),
        call_ensures(
            choose_result,
            (transcript, CloudOutcome::Answered(answer), vocabulary, timings_json),
            r,
        ),
    ensures
        verdict is None ==> r.text@ == answer@ && !r.used_fallback,
        verdict is Some ==> r.text@ == transcript@ && r.used_fallback,
        r.timings_json@ == timings_json@,
{
    assert(r@.text == r.text@ && r@.used_fallback == r.used_fallback);
    assert(r@.timings_json == r.timings_json@);
}

/// Without an answer the transcript is handed over; the fallback is reported
/// exactly where cleanup was wanted.
pub proof fn without_an_answer_the_transcript_is_the_result(
    transcript: String,
    outcome: CloudOutcome,
    vocabulary: &[String],
    timings_json: String,
    r: FinalResult,
)
    requires
        !(outcome is Answered),
        call_ensures(choose_result, (transcript, outcome, vocabulary, timings_json), r),
    ensures
        r.text@ == transcript@,
        r.used_fallback == !(outcome is Disabled),
{
    assert(r@.text == r.text@ && r@.used_fallback == r.used_fallback);
}

/// A correction puts the canonical form in the place of what was heard, whatever
/// characters the two are made of, and leaves what stands around it.
pub proof fn what_was_heard_is_corrected(
    left: Seq<char>,
    right: Seq<char>,
    a: Seq<char>,
    b: Seq<char>,
    value: &str,
    vocabulary: &[String],
    r: String,
)
    requires
        vocabulary@.len() == 1,
        has_sides(vocabulary@[0]@, left, right),
        trim(left).len() > 0,
        trim(right).len() > 0,
        trim(left) != trim(right),
        value@ == a + trim(left) + b,
        forall|j: int| 0 <= j < a.len() ==> !occurs_at(value@, trim(left), j),
        !contains(b, trim(left)),
        call_ensures(apply_vocabulary_corrections, (value, vocabulary), r),
    ensures
        r@ == a + trim(right) + b,
{
    assert(views(vocabulary@) =~= seq![vocabulary@[0]@]);
    a_rule_replaces_what_was_heard(vocabulary@[0]@, left, right, a, b);
}

/// A recording of any length that fits becomes a WAV file whose length fields say
/// how long it and its samples are, with the samples unchanged behind them.
pub proof fn recordings_become_wav_files(pcm: &[u8], r: Result<Vec<u8>, AsrError>)
    requires
        call_ensures(pcm_to_wav, (pcm,), r),
    ensures
        r is Ok <==> pcm@.len() + 36 <= 0xFFFF_FFFF,
        r matches Ok(wav) ==> {
            &&& wav@.len() == 44 + pcm@.len()
            &&& from_le32(wav@.subrange(4, 8)) == wav@.len() - 8
            &&& from_le32(wav@.subrange(40, 44)) == pcm@.len()
            &&& wav@.skip(44) == pcm@
        },
{
    if r is Ok {
        assert(r->Ok_0@ == wav_of(pcm@));
        wav_fields_agree_with_the_content(pcm@);
        wav_keeps_the_samples(pcm@);
    }
}

/// A recording comes out as it was captured if it lasts at least a tenth of a
/// second and nothing of it was refused.
pub proof fn recordings_come_out_as_captured(recording: Recording, r: Result<Vec<u8>, AudioError>)
    requires
        call_ensures(Recording::finish, (recording,), r),
    ensures
        r is Ok <==> !recording.refused() && recording.captured().len() * 10 >= 32_000,
        r matches Ok(pcm) ==> pcm@ == recording.captured(),
        recording.refused() ==> r == Err::<Vec<u8>, AudioError>(AudioError::TooLong),
{
}

/// The worker is told of the whole recording: how long it is, its language and the
/// words to expect.
pub proof fn the_worker_is_told_of_the_recording(
    request_id: &str,
    pcm: &[u8],
    language: &str,
    vocabulary: &[String],
    r: Result<WorkerRequest, WorkerError>,
)
    requires
        call_ensures(worker_request, (request_id, pcm, language, vocabulary), r),
    ensures
        r is Ok <==> pcm@.len() <= 0xFFFF_FFFF,
        r matches Ok(request) ==> {
            &&& request.version == 1
            &&& request.request_id@ == request_id@
            &&& request.sample_rate == 16_000
            &&& request.pcm_bytes == pcm@.len()
            &&& request.language@ == language@
            &&& views(request.vocabulary@) == views(vocabulary@)
            &&& 128 <= request.max_new_tokens <= 2_048
            &&& request.max_new_tokens < 2_048 ==> 4_000 * request.max_new_tokens >= pcm@.len()
            &&& request.max_new_tokens > 128 ==> 4_000 * (request.max_new_tokens - 1)
                < pcm@.len()
        },
{
    the_budget_covers_the_recording(pcm@.len());
    if r is Ok {
        let request = r->Ok_0;
        assert(request@.request_id == request.request_id@);
        assert(request@.max_new_tokens == request.max_new_tokens);
    }
}

/// What is written to the worker starts with the length of the header; then come
/// the header and the audio.
pub proof fn frames_hold_header_and_audio(
    header: &[u8],
    pcm: &[u8],
    r: Result<Vec<u8>, WorkerError>,
)
    requires
        call_ensures(request_frame, (header, pcm), r),
    ensures
        r is Ok <==> header@.len() <= 0xFFFF_FFFF,
        r matches Ok(frame) ==> {
            &&& from_le32(frame@.take(4)) == header@.len()
            &&& frame@.subrange(4, 4 + header@.len() as int) == header@
            &&& frame@.skip(4 + header@.len() as int) == pcm@
        },
{
    if r is Ok {
        frames_can_be_taken_apart(header@, pcm@);
    }
}

/// An announced length is believed from one byte to a mebibyte.
pub proof fn answers_are_announced_with_their_length(
    prefix: &[u8; 4],
    r: Result<u32, WorkerError>,
)
    requires
        call_ensures(response_length, (prefix,), r),
    ensures
        r is Ok <==> 1 <= from_le32(prefix@) <= 1_024 * 1_024,
        r matches Ok(length) ==> length == from_le32(prefix@),
{
}

/// The text of the first choice is the answer, without the white space around it,
/// where no correction rules are given.
pub proof fn answers_are_read_as_they_are(
    before: Seq<char>,
    said: Seq<char>,
    after: Seq<char>,
    choices: Vec<MessageContent>,
    vocabulary: &[String],
    r: Result<String, NoText>,
)
    requires
        forall|i: int| 0 <= i < before.len() ==> is_white_space(#[trigger] before[i]),
        forall|i: int| 0 <= i < after.len() ==> is_white_space(#[trigger] after[i]),
        said.len() > 0 ==> !is_white_space(said[0]) && !is_white_space(said.last()),
        vocabulary@.len() == 0,
        choices@.len() > 0,
        choices@[0].text() == before + said + after,
        call_ensures(polish_answer, (choices, vocabulary), r),
    ensures
        r is Ok <==> said.len() > 0,
        r matches Ok(text) ==> text@ == said,
{
    trimming_takes_off_white_space_alone(before, said, after);
    assert(views(vocabulary@) =~= Seq::empty());
}

/// The words of an error message decide on the code that is announced for it,
/// whatever their case; nothing else of the message is.
pub proof fn errors_are_announced_by_their_words(
    a: Seq<char>,
    b: Seq<char>,
    message: &str,
    r: String,
)
    requires
        all_ascii(message@),
        call_ensures(error_code, (message,), r),
    ensures
        lowercase(message@) == a + "audio"@ + b ==> r@ == "audio_failed"@,
        lowercase(message@) == a + "no speech"@ + b ==> r@ == "audio_failed"@,
        lowercase(message@) == a + "worker"@ + b && !contains(lowercase(message@), "audio"@)
            && !contains(lowercase(message@), "no speech"@) ==> r@ == "asr_failed"@,
        r@ == "audio_failed"@ || r@ == "asr_failed"@ || r@ == "pipeline_failed"@,
{
    codes_follow_the_words_of_a_message(a, b);
}

/// The stages of a session that ends follow one another as long as each succeeds,
/// and stop where one does not.
pub proof fn stages_follow_one_another(event: EndEvent, r: EndStep)
    requires
        call_ensures(end_step, (event,), r),
    ensures
        r.task == EndTask::Transcribe <==> event matches EndEvent::Ended(Ok(_)),
        r.task == EndTask::MarkPolishing <==> event matches EndEvent::Transcribed(Ok(_)),
        r.task == EndTask::Polish <==> event == EndEvent::Marked(true),
        r.task == EndTask::SignalResult <==> event == EndEvent::Stored(true),
        r.announce is None <==> event == EndEvent::Marked(false) || event == EndEvent::Stored(
            false,
        ) || event matches EndEvent::Transcribed(Ok(_)),
        r.announce is Some && r.task != EndTask::Stop ==> r.announce->0.detail@.len() == 0,
        r.announce is Some && r.task == EndTask::Stop ==> r.announce->0.state
            == PipelineState::Error,
{
}

/// Only a key with more than white space in it can be entered.
pub proof fn entered_keys_are_not_blank(value: &str, r: Result<(), SecretError>)
    requires
        call_ensures(check_entered_key, (value,), r),
    ensures
        r is Err <==> forall|i: int| 0 <= i < value@.len() ==> is_white_space(#[trigger] value@[i]),
{
    lemma_blank(value@);
}

/// A key is stored without the white space around it and with nothing else
/// changed, each under an account of its own.
pub proof fn keys_are_stored_trimmed(
    before: Seq<char>,
    key: Seq<char>,
    after: Seq<char>,
    value: &str,
    cloud: SecretWrite,
    asr: SecretWrite,
)
    requires
        forall|i: int| 0 <= i < before.len() ==> is_white_space(#[trigger] before[i]),
        forall|i: int| 0 <= i < after.len() ==> is_white_space(#[trigger] after[i]),
        key.len() > 0 ==> !is_white_space(key[0]) && !is_white_space(key.last()),
        value@ == before + key + after,
        call_ensures(set_cloud_api_key, (value,), cloud),
        call_ensures(set_asr_api_key, (value,), asr),
    ensures
        cloud.secret@ == key,
        asr.secret@ == key,
        cloud.account@ != asr.account@,
{
    trimming_takes_off_white_space_alone(before, key, after);
    keys_are_kept_apart();
}

/// The first choice of the Qwen service is the transcript, without the white space
/// around it, in the first language that it reports.
pub proof fn the_first_qwen_choice_is_the_transcript(
    before: Seq<char>,
    heard: Seq<char>,
    after: Seq<char>,
    choices: &[QwenChoice],
    language: &str,
    k: int,
    r: Result<TranscriptResult, AsrError>,
)
    requires
        forall|i: int| 0 <= i < before.len() ==> is_white_space(#[trigger] before[i]),
        forall|i: int| 0 <= i < after.len() ==> is_white_space(#[trigger] after[i]),
        heard.len() > 0 ==> !is_white_space(heard[0]) && !is_white_space(heard.last()),
        choices@.len() > 0,
        choices@[0].content@ == before + heard + after,
        0 <= k <= choices@[0].languages@.len(),
        forall|i: int| 0 <= i < k ==> trim((#[trigger] choices@[0].languages@[i])@).len() == 0,
        call_ensures(qwen_transcript, (choices, language), r),
    ensures
        r is Ok <==> heard.len() > 0,
        r matches Ok(transcript) ==> {
            &&& transcript.text@ == heard
            &&& k < choices@[0].languages@.len() && trim(choices@[0].languages@[k]@).len() > 0
                ==> transcript.language@ == choices@[0].languages@[k]@
            &&& k == choices@[0].languages@.len() ==> transcript.language@ == language@
        },
{
    let languages = views(choices@[0].languages@);
    trimming_takes_off_white_space_alone(before, heard, after);
    assert forall|i: int| 0 <= i < k implies trim(#[trigger] languages[i]).len() == 0 by {
        assert(languages[i] == choices@[0].languages@[i]@);
    }
    the_first_reported_language_counts(languages, language@, k);
    if r is Ok {
        assert(r->Ok_0@.text == r->Ok_0.text@ && r->Ok_0@.language == r->Ok_0.language@);
    }
}

/// The recording goes to the configured provider and to no other: never off the
/// machine where that is the local worker, and to a remote one not without the key
/// that it requires.
pub proof fn recordings_go_where_they_are_configured_to(
    router: &AsrRouter,
    config: &RuntimeConfig,
    api_key: &Option<String>,
    pcm: &[u8],
    language: &str,
    vocabulary: &[String],
    r: Result<AsrCall, AsrError>,
)
    requires
        call_ensures(
            AsrRouter::transcribe,
            (router, config, api_key, pcm, language, vocabulary),
            r,
        ),
    ensures
        config.asr_provider == AsrProvider::Local <==> r is Ok && r->Ok_0 is Local,
        r is Ok && r->Ok_0 is Qwen ==> config.asr_provider == AsrProvider::QwenApi,
        r is Ok && r->Ok_0 is OpenAi ==> config.asr_provider
            == AsrProvider::OpenaiCompatible,
        config.asr_provider != AsrProvider::Local && config.asr_api_key_required && api_key is None
            ==> r is Err,
        config.asr_provider == AsrProvider::OpenaiCompatible && (!config.asr_api_key_required
            || api_key is Some) && pcm@.len() <= 4_294_967_259 ==> r is Ok,
{
    recordings_fit_by_their_length(pcm@);
}

} // verus!
