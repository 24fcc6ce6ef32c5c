//! What holds of the pipeline over whole sessions.
use crate::outside::JsonValueView;
use crate::pipeline::{
    at_rest, begin_error, begun, cancel_done, cancelling, chosen, cloud_call_of, cloud_options_of,
    end_error, ended, error_expired, failed, final_result, is_busy, is_current, is_foreign,
    is_session_id, may_polish, may_store, outcome_of, owns, polishing, resolved_transcript,
    result_expired, stored, take_error, taken, timing_fields, ActiveView, CloudCallView,
    CloudOutcome, PipelineError, PipelineView,
};
use crate::prompt::rejection;
use crate::protocol::{
    FinalResultView, PipelineState, RuntimeConfigView, SessionOptionsView, TranscriptView,
};
use crate::store::{unexpired, StoredView};
use crate::text::{byte_len, bytes_are_counted_as_in_utf8, char_width, strip_end, trim, CharClass};
use crate::vocabulary::{resolved_everywhere, VocabularyFileView};
use vstd::prelude::*;
use vstd::utf8::encode_utf8;

verus! {

/// No result is kept.
pub open spec fn no_results(p: PipelineView) -> bool {
    p.results =~= Map::<Seq<char>, StoredView>::empty()
}

/// At most the result of this session is kept.
pub open spec fn no_other_results(p: PipelineView, id: Seq<char>) -> bool {
    forall|other: Seq<char>| #[trigger] p.results.contains_key(other) ==> other == id
}

/// Exactly one result is kept.
pub open spec fn one_result(p: PipelineView) -> bool {
    exists|id: Seq<char>| #[trigger] p.results.contains_key(id) && no_other_results(p, id)
}

/// The state says what is going on: at rest nothing is kept; while recording
/// nothing else is; while processing a session is claimed; and a ready result is
/// the only thing that is kept.
pub open spec fn consistent(p: PipelineView) -> bool {
    match p.state {
        PipelineState::Idle => p.active is None && p.processing is None && no_results(p),
        PipelineState::Recording => p.processing is None && no_results(p),
        PipelineState::Transcribing | PipelineState::Polishing | PipelineState::Error => p.active
            is None && p.processing is Some && no_results(p),
        PipelineState::ResultReady => p.active is None && p.processing is None && one_result(p),
        PipelineState::LoadingModel => false,
    }
}

/// A new pipeline is consistent, and every operation keeps it so. Completing a
/// cancellation does where no other session came in between.
pub proof fn operations_keep_the_pipeline_consistent(
    p: PipelineView,
    runtime: RuntimeConfigView,
    session: ActiveView,
    owner: Seq<char>,
    id: Seq<char>,
    detail: Seq<char>,
    value: FinalResultView,
    now: u64,
)
    requires
        consistent(p),
    ensures
        consistent(at_rest(runtime)),
        consistent(PipelineView { runtime, ..p }),
        !is_busy(p) ==> consistent(begun(p, session)),
        consistent(ended(p, owner, id)),
        consistent(failed(p, id, detail)),
        consistent(error_expired(p, id)),
        consistent(polishing(p, id)),
        consistent(stored(p, id, owner, value, now)),
        consistent(taken(p, owner, id)),
        consistent(result_expired(p, id)),
        consistent(cancelling(p, owner, id)),
        p.active is None && no_other_results(p, id) ==> consistent(cancel_done(p, owner, id)),
{
    let empty = Map::<Seq<char>, StoredView>::empty();
    let with_runtime = PipelineView { runtime, ..p };
    if p.state == PipelineState::ResultReady {
        let kept = choose|kept: Seq<char>|
            #[trigger] p.results.contains_key(kept) && no_other_results(p, kept);
        assert(with_runtime.results.contains_key(kept) && no_other_results(with_runtime, kept));
        if p.results.contains_key(id) {
            assert(p.results.remove(id) =~= empty);
        }
        let given_up = cancelling(p, owner, id);
        assert(given_up.results.contains_key(kept) && no_other_results(given_up, kept));
        let polished = polishing(p, id);
        assert(polished.results.contains_key(kept) && no_other_results(polished, kept));
        let after = stored(p, id, owner, value, now);
        assert(after.results.contains_key(kept) && no_other_results(after, kept));
    }
    if may_store(p, id, owner) {
        let after = stored(p, id, owner, value, now);
        assert(unexpired(p.results, now) =~= empty);
        assert(after.results.contains_key(id) && no_other_results(after, id));
    }
    if p.active is None && no_other_results(p, id) && !is_foreign(p, owner, id) {
        assert(p.results.remove(id) =~= empty);
    }
}

/// The daemon accepts one session: once one has begun, no other can.
pub proof fn one_session_at_a_time(p: PipelineView, session: ActiveView, other: Seq<char>)
    requires
        is_session_id(other),
    ensures
        begin_error(begun(p, session), other) == Some(PipelineError::Busy),
        begin_error(ended(begun(p, session), session.owner, session.id), other) == Some(
            PipelineError::Busy,
        ),
{
}

/// Only who began a session can end it, cancel it or take its result; and they
/// can. Nobody else's request has any effect.
pub proof fn sessions_belong_to_who_began_them(
    p: PipelineView,
    session: ActiveView,
    caller: Seq<char>,
    value: FinalResultView,
    now: u64,
)
    requires
        consistent(p),
        !is_busy(p),
    ensures
        ({
            let id = session.id;
            let owner = session.owner;
            let recording = begun(p, session);
            let processing = ended(recording, owner, id);
            let ready = stored(processing, id, owner, value, now);
            &&& end_error(recording, caller, id) == (if caller == owner {
                None
            } else {
                Some(PipelineError::Mismatch)
            })
            &&& owns(recording, caller, id) == (caller == owner)
            &&& owns(processing, caller, id) == (caller == owner)
            &&& owns(ready, caller, id) == (caller == owner)
            &&& take_error(ready, caller, id) == (if caller == owner {
                None
            } else {
                Some(PipelineError::ForeignResult)
            })
            &&& caller != owner ==> {
                &&& ended(recording, caller, id) == recording
                &&& cancelling(recording, caller, id) == recording
                &&& cancelling(processing, caller, id) == processing
                &&& cancelling(ready, caller, id) == ready
                &&& taken(ready, caller, id) == ready
            }
        }),
{
}

/// A refused request changes nothing.
pub proof fn refused_requests_change_nothing(p: PipelineView, owner: Seq<char>, id: Seq<char>)
    ensures
        end_error(p, owner, id) is Some ==> ended(p, owner, id) == p,
        take_error(p, owner, id) is Some ==> taken(p, owner, id) == p,
        !owns(p, owner, id) ==> cancelling(p, owner, id) == p,
        is_foreign(p, owner, id) ==> cancel_done(p, owner, id) == p,
{
}

/// A session runs through all the states and ends where it began: its owner gets
/// exactly the result that was stored, and nothing of the session is left.
pub proof fn a_session_runs_through(
    p: PipelineView,
    session: ActiveView,
    value: FinalResultView,
    now: u64,
)
    requires
        consistent(p),
        !is_busy(p),
    ensures
        ({
            let id = session.id;
            let owner = session.owner;
            let recording = begun(p, session);
            let transcribing = ended(recording, owner, id);
            let cleaning = polishing(transcribing, id);
            let ready = stored(cleaning, id, owner, value, now);
            let done = taken(ready, owner, id);
            &&& recording.state == PipelineState::Recording
            &&& transcribing.state == PipelineState::Transcribing
            &&& may_polish(transcribing, id) && cleaning.state == PipelineState::Polishing
            &&& may_store(cleaning, id, owner) && ready.state == PipelineState::ResultReady
            &&& take_error(ready, owner, id) is None && ready.results[id].value == value
            &&& done.state == PipelineState::Idle && !is_busy(done)
            &&& no_results(done) && done.processing is None
        }),
{
    let empty = Map::<Seq<char>, StoredView>::empty();
    let cleaning = polishing(
        ended(begun(p, session), session.owner, session.id),
        session.id,
    );
    let ready = stored(cleaning, session.id, session.owner, value, now);
    assert(unexpired(cleaning.results, now) =~= empty);
    assert(ready.results.remove(session.id) =~= empty);
}

/// A result can be taken once.
pub proof fn taking_a_result_deletes_it(
    p: PipelineView,
    owner: Seq<char>,
    id: Seq<char>,
    caller: Seq<char>,
)
    requires
        take_error(p, owner, id) is None,
    ensures
        take_error(taken(p, owner, id), caller, id) == Some(PipelineError::NotReady),
        !taken(p, owner, id).results.contains_key(id),
{
}

/// A stored result expires thirty seconds later; then nobody can take it, and
/// the pipeline is free again.
pub proof fn results_expire(
    p: PipelineView,
    id: Seq<char>,
    owner: Seq<char>,
    value: FinalResultView,
    now: u64,
    caller: Seq<char>,
)
    requires
        may_store(p, id, owner),
    ensures
        ({
            let ready = stored(p, id, owner, value, now);
            let later = result_expired(ready, id);
            &&& ready.results[id].expires_at == now + 30_000_000_000
            &&& take_error(later, caller, id) == Some(PipelineError::NotReady)
            &&& later.state == PipelineState::Idle
        }),
{
}

/// Storing a result drops those that have expired.
pub proof fn storing_drops_what_has_expired(
    p: PipelineView,
    id: Seq<char>,
    owner: Seq<char>,
    value: FinalResultView,
    now: u64,
    other: Seq<char>,
)
    requires
        may_store(p, id, owner),
        stored(p, id, owner, value, now).results.contains_key(other),
    ensures
        stored(p, id, owner, value, now).results[other].expires_at > now,
{
}

/// Nothing is stored, nor cleaned up, for a session that was cancelled while it
/// was processed.
pub proof fn cancelled_sessions_leave_nothing(
    p: PipelineView,
    owner: Seq<char>,
    id: Seq<char>,
    value: FinalResultView,
    now: u64,
)
    requires
        consistent(p),
        owns(p, owner, id),
    ensures
        ({
            let after = cancel_done(cancelling(p, owner, id), owner, id);
            &&& !is_foreign(cancelling(p, owner, id), owner, id)
            &&& after.state == PipelineState::Idle
            &&& after.active is None && after.processing is None && no_results(after)
            &&& !may_polish(after, id)
            &&& !may_store(after, id, owner)
            &&& !stored(after, id, owner, value, now).results.contains_key(id)
        }),
{
    let given_up = cancelling(p, owner, id);
    if p.state == PipelineState::ResultReady {
        let kept = choose|kept: Seq<char>|
            #[trigger] p.results.contains_key(kept) && no_other_results(p, kept);
    }
    assert(given_up.results.remove(id) =~= Map::<Seq<char>, StoredView>::empty());
}

/// A cancelled session can begin again under the same id.
pub proof fn a_cancelled_session_can_begin_again(p: PipelineView, session: ActiveView)
    ensures
        !begun(p, session).cancelled.contains(session.id),
{
}

/// A failure is shown for the session it belongs to, and taking it back frees
/// the pipeline.
pub proof fn failures_pass(p: PipelineView, id: Seq<char>, detail: Seq<char>)
    requires
        is_current(p, id),
    ensures
        failed(p, id, detail).state == PipelineState::Error,
        failed(p, id, detail).detail == detail,
        error_expired(failed(p, id, detail), id).state == PipelineState::Idle,
        error_expired(failed(p, id, detail), id).processing is None,
{
}

/// A late report or timer of another session changes nothing.
pub proof fn late_reports_change_nothing(p: PipelineView, id: Seq<char>, detail: Seq<char>)
    requires
        !is_current(p, id),
        !p.cancelled.contains(id),
        !p.results.contains_key(id),
    ensures
        failed(p, id, detail) == p,
        error_expired(p, id) == p,
        polishing(p, id) == p,
        result_expired(p, id) == p,
{
}

/// What is shown of the pipeline does not depend on what was dictated.
pub proof fn status_does_not_depend_on_the_result(
    p: PipelineView,
    id: Seq<char>,
    owner: Seq<char>,
    a: FinalResultView,
    b: FinalResultView,
    now: u64,
)
    ensures
        stored(p, id, owner, a, now).state == stored(p, id, owner, b, now).state,
        stored(p, id, owner, a, now).detail == stored(p, id, owner, b, now).detail,
        may_store(p, id, owner) ==> stored(p, id, owner, a, now).detail.len() == 0,
{
}

/// The text handed over is the transcript or an accepted cleanup of it; and
/// wherever cleanup was wanted but is not used, it is the transcript.
pub proof fn failed_cleanup_falls_back_to_the_transcript(
    transcript: Seq<char>,
    outcome: CloudOutcome,
    vocabulary: Seq<Seq<char>>,
)
    ensures
        ({
            let (text, used_fallback) = chosen(transcript, outcome, vocabulary);
            &&& used_fallback ==> text == transcript
            &&& outcome is NoKey || outcome is Failed ==> used_fallback
            &&& outcome is Disabled ==> !used_fallback && text == transcript
            &&& text == transcript || (outcome matches CloudOutcome::Answered(polished) && text
                == polished@ && rejection(transcript, polished@, vocabulary) is None)
            &&& outcome matches CloudOutcome::Answered(polished) ==> used_fallback == (rejection(
                transcript,
                polished@,
                vocabulary,
            ) is Some)
        }),
{
}

/// Nothing is uploaded for cleanup where the session does not want it, or where
/// a key is required and there is none.
pub proof fn nothing_is_uploaded_without_consent_or_key(
    runtime: RuntimeConfigView,
    options: SessionOptionsView,
    transcript: TranscriptView,
    api_key: Option<Seq<char>>,
)
    ensures
        !options.cloud_enabled || (runtime.cloud_api_key_required && api_key is None)
            <==> !(cloud_call_of(runtime, options, transcript, api_key) is Ask),
{
}

/// Where the session does not want cleanup, or a key is required and there is
/// none, the text handed over is the resolved transcript, whatever is passed off
/// as an answer.
pub proof fn without_consent_or_key_the_transcript_is_handed_over(
    heard: TranscriptView,
    directories: Seq<Seq<VocabularyFileView>>,
    runtime: RuntimeConfigView,
    options: SessionOptionsView,
    api_key: Option<Seq<char>>,
    answer: Option<String>,
    timings_json: Seq<char>,
)
    requires
        !options.cloud_enabled || (runtime.cloud_api_key_required && api_key is None),
    ensures
        ({
            let transcript = resolved_transcript(heard, directories);
            let call = cloud_call_of(runtime, options, transcript, api_key);
            let result = final_result(
                transcript.text,
                outcome_of(call, answer),
                options.vocabulary,
                timings_json,
            );
            &&& result.text == resolved_everywhere(heard.text, directories)
            &&& result.used_fallback == options.cloud_enabled
        }),
{
}

/// A result is stored exactly for the session being processed, unless it was
/// cancelled. Then it is ready, and its owner can take it; otherwise nothing but
/// the mark of the cancellation is gone.
pub proof fn storing_is_all_or_nothing(
    p: PipelineView,
    id: Seq<char>,
    owner: Seq<char>,
    value: FinalResultView,
    now: u64,
)
    ensures
        may_store(p, id, owner) <==> !p.cancelled.contains(id) && p.processing == Some(
            (id, owner),
        ),
        ({
            let after = stored(p, id, owner, value, now);
            &&& may_store(p, id, owner) ==> {
                &&& after.state == PipelineState::ResultReady
                &&& after.processing is None
                &&& take_error(after, owner, id) is None
                &&& after.results[id].value == value
                &&& after.results[id].expires_at == now + 30_000_000_000
            }
            &&& !may_store(p, id, owner) ==> {
                &&& after.state == p.state
                &&& after.detail == p.detail
                &&& after.active == p.active
                &&& after.processing == p.processing
                &&& after.results == p.results
                &&& after.cancelled =~= p.cancelled.remove(id)
            }
        }),
{
}

/// A cancellation that succeeds discards the session, in whatever state the
/// pipeline was: nothing is recorded or processed, no result can be taken,
/// nothing is cleaned up or stored for it any more, and another session can
/// begin.
pub proof fn cancelling_discards_the_session(
    p: PipelineView,
    owner: Seq<char>,
    id: Seq<char>,
    caller: Seq<char>,
    other: Seq<char>,
    value: FinalResultView,
    now: u64,
)
    requires
        owns(p, owner, id),
        !is_foreign(cancelling(p, owner, id), owner, id),
        is_session_id(other),
    ensures
        ({
            let after = cancel_done(cancelling(p, owner, id), owner, id);
            &&& after.state == PipelineState::Idle
            &&& after.detail.len() == 0
            &&& after.active is None
            &&& after.processing is None
            &&& take_error(after, caller, id) == Some(PipelineError::NotReady)
            &&& !may_polish(after, id)
            &&& !may_store(after, id, caller)
            &&& stored(after, id, caller, value, now).results == after.results
            &&& begin_error(after, other) is None
        }),
{
}

/// An answer that is not rejected is the text handed over, whatever it looks like
/// beside the transcript; and where cleanup was asked for and no fallback is
/// reported, the text is the answer.
pub proof fn accepted_cleanup_is_handed_over(
    transcript: Seq<char>,
    call: CloudCallView,
    answer: Option<String>,
    vocabulary: Seq<Seq<char>>,
    timings_json: Seq<char>,
)
    requires
        call is Ask,
    ensures
        ({
            let result = final_result(
                transcript,
                outcome_of(call, answer),
                vocabulary,
                timings_json,
            );
            &&& answer matches Some(polished) ==> {
                &&& rejection(transcript, polished@, vocabulary) is None ==> result.text
                    == polished@ && !result.used_fallback
                &&& rejection(transcript, polished@, vocabulary) is Some ==> result.text
                    == transcript && result.used_fallback
            }
            &&& answer is None ==> result.text == transcript && result.used_fallback
            &&& !result.used_fallback ==> answer is Some && result.text == answer->0@
            &&& result.timings_json == timings_json
        }),
{
}

/// Cleanup is told the detected language only where none was forced, and nothing
/// else of the options changes.
pub proof fn a_forced_language_is_kept(options: SessionOptionsView, transcript: TranscriptView)
    ensures
        ({
            let told = cloud_options_of(options, transcript);
            &&& options.language != "auto"@ ==> told.language == options.language
            &&& options.language == "auto"@ && transcript.language.len() > 0 ==> told.language
                == transcript.language
            &&& transcript.language.len() == 0 ==> told.language == options.language
            &&& told.vocabulary == options.vocabulary
            &&& told.context_before == options.context_before
            &&& told.context_after == options.context_after
        }),
{
}

/// A cleanup request goes to the configured endpoint and model, in time, with the
/// key that was found.
pub proof fn cleanup_goes_to_the_configured_endpoint(
    runtime: RuntimeConfigView,
    options: SessionOptionsView,
    transcript: TranscriptView,
    api_key: Option<Seq<char>>,
)
    requires
        options.cloud_enabled,
        api_key is Some || !runtime.cloud_api_key_required,
    ensures
        cloud_call_of(runtime, options, transcript, api_key) matches CloudCallView::Ask(request)
            && {
            &&& request.url == strip_end(runtime.cloud_base_url, CharClass::Only('/'))
                + "/chat/completions"@
            &&& request.model == runtime.cloud_model
            &&& request.timeout_ms == runtime.cloud_timeout_ms
            &&& api_key is Some && trim(api_key->0).len() > 0 ==> request.bearer == api_key
            &&& api_key is None ==> request.bearer is None
            &&& !request.stream && request.temperature == 0
        },
{
}

/// A result is kept exactly as long as it has not expired, unchanged.
pub proof fn results_are_kept_until_they_expire(
    results: Map<Seq<char>, StoredView>,
    now: u64,
    id: Seq<char>,
)
    ensures
        unexpired(results, now).contains_key(id) <==> results.contains_key(id)
            && results[id].expires_at > now,
        unexpired(results, now).contains_key(id) ==> unexpired(results, now)[id] == results[id],
{
}

/// To the session `other` nothing has changed between `p` and `after`: neither its
/// result nor whether it counts as cancelled; and the settings are the same.
pub open spec fn undisturbed(p: PipelineView, after: PipelineView, other: Seq<char>) -> bool {
    &&& after.runtime == p.runtime
    &&& after.cancelled.contains(other) == p.cancelled.contains(other)
    &&& after.results.contains_key(other) == p.results.contains_key(other)
    &&& p.results.contains_key(other) ==> after.results[other] == p.results[other]
}

/// What happens to one session does not touch what is kept for another, except
/// that storing a result drops what has expired.
pub proof fn sessions_do_not_disturb_each_other(
    p: PipelineView,
    session: ActiveView,
    owner: Seq<char>,
    id: Seq<char>,
    detail: Seq<char>,
    value: FinalResultView,
    now: u64,
    other: Seq<char>,
)
    requires
        other != id,
        session.id == id,
    ensures
        undisturbed(p, begun(p, session), other),
        undisturbed(p, ended(p, owner, id), other),
        undisturbed(p, failed(p, id, detail), other),
        undisturbed(p, error_expired(p, id), other),
        undisturbed(p, polishing(p, id), other),
        undisturbed(p, taken(p, owner, id), other),
        undisturbed(p, result_expired(p, id), other),
        undisturbed(p, cancelling(p, owner, id), other),
        undisturbed(p, cancel_done(p, owner, id), other),
        p.results.contains_key(other) && p.results[other].expires_at > now ==> undisturbed(
            p,
            stored(p, id, owner, value, now),
            other,
        ),
{
}

/// A session can begin under an id of 1 to 128 bytes while nothing goes on; an
/// unusable id is told from a pipeline that is busy.
pub proof fn sessions_begin_while_nothing_goes_on(p: PipelineView, id: Seq<char>)
    ensures
        begin_error(p, id) is None <==> 1 <= encode_utf8(id).len() <= 128 && p.active is None
            && p.state == PipelineState::Idle,
        begin_error(p, id) == Some(PipelineError::InvalidSessionId) <==> !(1 <= encode_utf8(
            id,
        ).len() <= 128),
        begin_error(p, id) is Some ==> begin_error(p, id) == Some(PipelineError::InvalidSessionId)
            || begin_error(p, id) == Some(PipelineError::Busy),
{
    bytes_are_counted_as_in_utf8(id);
    if id.len() > 0 {
        assert(byte_len(id) == byte_len(id.drop_last()) + char_width(id.last()));
    }
}

/// What went wrong before is not shown of what comes next, and what a session
/// recorded, under its options, is what goes on.
pub proof fn details_do_not_outlive_their_state(
    p: PipelineView,
    session: ActiveView,
    owner: Seq<char>,
    id: Seq<char>,
    detail: Seq<char>,
)
    ensures
        begun(p, session).active == Some(session),
        begun(p, session).detail.len() == 0,
        begun(p, session).processing == p.processing,
        may_polish(p, id) ==> polishing(p, id).detail.len() == 0 && polishing(p, id).processing
            == p.processing,
        take_error(p, owner, id) is None ==> taken(p, owner, id).detail.len() == 0,
        is_current(p, id) ==> error_expired(failed(p, id, detail), id).detail.len() == 0,
        end_error(p, owner, id) is None ==> ended(p, owner, id).processing == Some((id, owner))
            && ended(p, owner, id).active is None,
{
}

/// A timer that fires late does not disturb what has come since: an expiring
/// result leaves any other state alone, and so does an expiring failure.
pub proof fn late_timers_disturb_nothing(p: PipelineView, id: Seq<char>)
    ensures
        !result_expired(p, id).results.contains_key(id),
        p.state != PipelineState::ResultReady || !p.results.contains_key(id) ==> {
            &&& result_expired(p, id).state == p.state
            &&& result_expired(p, id).detail == p.detail
        },
        p.state == PipelineState::ResultReady && p.results.contains_key(id) ==> {
            &&& result_expired(p, id).state == PipelineState::Idle
            &&& result_expired(p, id).detail.len() == 0
        },
        result_expired(p, id).active == p.active,
        result_expired(p, id).processing == p.processing,
        p.state != PipelineState::Error ==> error_expired(p, id) == p,
        error_expired(p, id).active == p.active,
        failed(p, id, p.detail).active == p.active,
        failed(p, id, p.detail).processing == p.processing,
{
}

/// A cancellation is remembered exactly while an outcome of the session can still
/// come in.
pub proof fn cancellations_are_remembered_while_needed(
    p: PipelineView,
    owner: Seq<char>,
    id: Seq<char>,
)
    requires
        !(p.results.contains_key(id) && p.results[id].owner != owner),
    ensures
        cancel_done(p, owner, id).cancelled.contains(id) <==> p.cancelled.contains(id) || (
        p.processing == Some((id, owner)) && p.state != PipelineState::Error),
        !polishing(p, id).cancelled.contains(id),
        cancel_done(p, owner, id).state == PipelineState::Idle,
        cancel_done(p, owner, id).detail.len() == 0,
        cancel_done(p, owner, id).processing is None,
        cancel_done(p, owner, id).active == p.active,
{
}

/// Resolving changes the text of a transcript alone, and the times that are
/// reported are those that were measured.
pub proof fn transcripts_keep_their_language(
    heard: TranscriptView,
    directories: Seq<Seq<VocabularyFileView>>,
    recording_ms: u64,
    asr_ms: u64,
    cloud_ms: u64,
)
    ensures
        resolved_transcript(heard, directories).language == heard.language,
        resolved_transcript(heard, directories).text == resolved_everywhere(
            heard.text,
            directories,
        ),
        timing_fields(recording_ms, asr_ms, cloud_ms).len() == 3,
        timing_fields(recording_ms, asr_ms, cloud_ms)[0] == (
            "recording_ms"@,
            JsonValueView::Whole(recording_ms),
        ),
        timing_fields(recording_ms, asr_ms, cloud_ms)[1] == (
            "asr_ms"@,
            JsonValueView::Whole(asr_ms),
        ),
        timing_fields(recording_ms, asr_ms, cloud_ms)[2] == (
            "cloud_ms"@,
            JsonValueView::Whole(cloud_ms),
        ),
{
}

} // verus!
