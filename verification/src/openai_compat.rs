//! Cleanup of transcripts by an OpenAI-compatible service: the request and what
//! is accepted of the answer.
use crate::endpoint::{address, authorized, endpoint_url, usable_key};
use crate::json::{flag_field, json_field, jsons_field, pair, text_field, texts_field, whole_field};
use crate::outside::{field_views, json_object, json_object_text, JsonField, JsonValueView};
use crate::prompt::{apply_vocabulary_corrections, corrected, DICTATION_PROMPT};
use crate::protocol::{SessionOptions, SessionOptionsView};
use crate::text::{
    chars_of, concat, contains, decimal, decimal_digits, includes, join, joined, option_view, trim,
    trimmed_text, views,
};
use vstd::prelude::*;

verus! {

/// A request for cleanup: a system and a user message, with the parameters of
/// the completion.
#[derive(Debug)]
pub struct PolishRequest {
    pub url: String,
    pub bearer: Option<String>,
    pub timeout_ms: u64,
    pub model: String,
    pub system: String,
    pub user: String,
    pub max_tokens: u64,
    /// A whole number. It is sent as a real one.
    pub temperature: u32,
    pub stream: bool,
}

/// The text held by [`PolishRequest`].
#[verifier::ext_equal]
pub struct PolishRequestView {
    pub url: Seq<char>,
    pub bearer: Option<Seq<char>>,
    pub timeout_ms: u64,
    pub model: Seq<char>,
    pub system: Seq<char>,
    pub user: Seq<char>,
    pub max_tokens: u64,
    pub temperature: u32,
    pub stream: bool,
}

impl View for PolishRequest {
    type V = PolishRequestView;

    open spec fn view(&self) -> PolishRequestView {
        PolishRequestView {
            url: self.url@,
            bearer: option_view(self.bearer),
            timeout_ms: self.timeout_ms,
            model: self.model@,
            system: self.system@,
            user: self.user@,
            max_tokens: self.max_tokens,
            temperature: self.temperature,
            stream: self.stream,
        }
    }
}

/// The service answered without text.
#[derive(Debug, Clone, Copy, PartialEq, Eq, Structural)]
pub struct NoText;

impl NoText {
    /// The message shown for the error.
    pub fn message(self) -> (r: String)
        ensures
            r@ == "OpenAI-compatible endpoint returned no text"@,
    {
        "OpenAI-compatible endpoint returned no text".to_owned()
    }
}

/// The entry is a correction rule.
pub open spec fn has_arrow(entry: Seq<char>) -> bool {
    contains(entry, "=>"@) || contains(entry, "->"@)
}

/// Entries that are correction rules.
pub open spec fn is_correction() -> spec_fn(Seq<char>) -> bool {
    |entry: Seq<char>| has_arrow(entry)
}

/// Entries that give a spelling, without the ambiguous ones marked by `@`.
pub open spec fn is_exact_term() -> spec_fn(Seq<char>) -> bool {
    |entry: Seq<char>| !has_arrow(entry) && !(entry.len() > 0 && entry[0] == '@')
}

/// What the user message holds.
pub open spec fn polish_fields(
    raw: Seq<char>,
    options: SessionOptionsView,
) -> Seq<(Seq<char>, JsonValueView)> {
    seq![
        ("transcription"@, JsonValueView::Text(corrected(raw, options.vocabulary))),
        ("detected_or_forced_language"@, JsonValueView::Text(options.language)),
        ("exact_vocabulary"@, JsonValueView::Texts(options.vocabulary.filter(is_exact_term()))),
        ("explicit_corrections"@, JsonValueView::Texts(options.vocabulary.filter(is_correction()))),
        ("context_before"@, JsonValueView::Text(options.context_before)),
        ("context_after"@, JsonValueView::Text(options.context_after)),
    ]
}

/// Two tokens for every dictated character and some more, between 128 and 2048.
pub open spec fn completion_budget(characters: nat) -> u64 {
    if 2 * characters + 64 < 128 {
        128
    } else if 2 * characters + 64 > 2_048 {
        2_048
    } else {
        (2 * characters + 64) as u64
    }
}

/// The request for cleanup.
pub open spec fn polish_request_of(
    api_key: Option<Seq<char>>,
    base_url: Seq<char>,
    model: Seq<char>,
    timeout_ms: u64,
    raw: Seq<char>,
    options: SessionOptionsView,
) -> PolishRequestView {
    PolishRequestView {
        url: address(base_url, "/chat/completions"@),
        bearer: usable_key(api_key),
        timeout_ms,
        model,
        system: DICTATION_PROMPT@,
        user: json_object_text(polish_fields(raw, options)),
        max_tokens: completion_budget(raw.len()),
        temperature: 0,
        stream: false,
    }
}

/// The entries that are correction rules, or else those that give a spelling.
fn entries(vocabulary: &[String], corrections: bool) -> (r: Vec<String>)
    ensures
        corrections ==> views(r@) == views(vocabulary@).filter(is_correction()),
        !corrections ==> views(r@) == views(vocabulary@).filter(is_exact_term()),
{
    let arrow = chars_of("=>");
    let thin = chars_of("->");
    let ghost all = views(vocabulary@);
    let ghost wanted = if corrections {
        is_correction()
    } else {
        is_exact_term()
    };
    let mut r: Vec<String> = Vec::new();
    let mut i: usize = 0;
    proof {
        reveal(Seq::filter);
        assert(all.take(0) =~= Seq::empty());
        assert(views(r@) =~= all.take(0).filter(wanted));
    }
    while i < vocabulary.len()
        invariant
            i <= vocabulary.len(),
            arrow@ == "=>"@,
            thin@ == "->"@,
            all == views(vocabulary@),
            wanted == (if corrections {
                is_correction()
            } else {
                is_exact_term()
            }),
            views(r@) == all.take(i as int).filter(wanted),
        decreases vocabulary.len() - i,
    {
        let ghost before = r@;
        let ghost entry = vocabulary@[i as int]@;
        proof {
            reveal(Seq::filter);
            assert(all.take(i + 1).drop_last() =~= all.take(i as int));
            assert(all.take(i + 1).last() == entry);
        }
        let chars = chars_of(vocabulary[i].as_str());
        let rule = includes(chars.as_slice(), arrow.as_slice()) || includes(
            chars.as_slice(),
            thin.as_slice(),
        );
        let marked = chars.len() > 0 && chars[0] == '@';
        if if corrections {
            rule
        } else {
            !rule && !marked
        } {
            r.push(vocabulary[i].clone());
            assert(views(r@) =~= views(before).push(entry));
        }
        i += 1;
    }
    assert(all.take(i as int) =~= all);
    r
}

/// The request for cleanup of `raw`. The instructions do not depend on anything
/// that was dictated.
pub fn polish_request(
    api_key: &Option<String>,
    base_url: &str,
    model: &str,
    timeout_ms: u64,
    raw: &str,
    options: &SessionOptions,
) -> (r: PolishRequest)
    ensures
        r@ == polish_request_of(
            option_view(*api_key),
            base_url@,
            model@,
            timeout_ms,
            raw@,
            options@,
        ),
{
    let vocabulary = options.vocabulary.as_slice();
    let transcription = apply_vocabulary_corrections(raw, vocabulary);
    let mut fields: Vec<JsonField> = Vec::new();
    fields.push(text_field("transcription", transcription.as_str()));
    fields.push(text_field("detected_or_forced_language", options.language.as_str()));
    fields.push(texts_field("exact_vocabulary", entries(vocabulary, false)));
    fields.push(texts_field("explicit_corrections", entries(vocabulary, true)));
    fields.push(text_field("context_before", options.context_before.as_str()));
    fields.push(text_field("context_after", options.context_after.as_str()));
    assert(field_views(fields@) =~= polish_fields(raw@, options@));
    let characters: usize = chars_of(raw).len();
    let max_tokens: u64 = if characters < 32 {
        128
    } else if characters > 992 {
        2_048
    } else {
        2 * characters as u64 + 64
    };
    PolishRequest {
        url: endpoint_url(base_url, "/chat/completions"),
        bearer: authorized(api_key),
        timeout_ms,
        model: model.to_owned(),
        system: DICTATION_PROMPT.to_owned(),
        user: json_object(fields.as_slice()),
        max_tokens,
        temperature: 0,
        stream: false,
    }
}

/// A message of a conversation.
pub open spec fn chat_message(role: Seq<char>, content: Seq<char>) -> Seq<char> {
    json_object_text(
        seq![("role"@, JsonValueView::Text(role)), ("content"@, JsonValueView::Text(content))],
    )
}

/// What the body of a request for cleanup holds: the instructions, then what was
/// dictated, and the parameters of the completion.
pub open spec fn polish_body_fields(request: PolishRequestView) -> Seq<
    (Seq<char>, JsonValueView),
> {
    seq![
        ("model"@, JsonValueView::Text(request.model)),
        (
            "messages"@,
            JsonValueView::Jsons(
                seq![
                    chat_message("system"@, request.system),
                    chat_message("user"@, request.user),
                ],
            ),
        ),
        ("max_tokens"@, JsonValueView::Whole(request.max_tokens)),
        (
            "temperature"@,
            JsonValueView::Json(decimal_digits(request.temperature as nat) + ".0"@),
        ),
        ("stream"@, JsonValueView::Flag(request.stream)),
    ]
}

/// The body of a request for cleanup.
pub fn polish_body(request: &PolishRequest) -> (r: String)
    ensures
        r@ == json_object_text(polish_body_fields(request@)),
{
    let mut messages: Vec<String> = Vec::new();
    messages.push(
        pair(text_field("role", "system"), text_field("content", request.system.as_str())),
    );
    messages.push(pair(text_field("role", "user"), text_field("content", request.user.as_str())));
    assert(views(messages@) =~= seq![
        chat_message("system"@, request.system@),
        chat_message("user"@, request.user@),
    ]);
    let whole = decimal(request.temperature as u64);
    let mut fields: Vec<JsonField> = Vec::new();
    fields.push(text_field("model", request.model.as_str()));
    fields.push(jsons_field("messages", messages));
    fields.push(whole_field("max_tokens", request.max_tokens));
    fields.push(json_field("temperature", concat(whole.as_str(), ".0")));
    fields.push(flag_field("stream", request.stream));
    assert(field_views(fields@) =~= polish_body_fields(request@));
    json_object(fields.as_slice())
}

/// The content of an assistant message: one text, or the texts of its parts.
#[derive(Debug)]
pub enum MessageContent {
    Text(String),
    Parts(Vec<String>),
}

impl MessageContent {
    /// All the text.
    pub open spec fn text(self) -> Seq<char> {
        match self {
            MessageContent::Text(text) => text@,
            MessageContent::Parts(parts) => joined(views(parts@), ""@),
        }
    }

    /// All the text.
    pub fn into_text(self) -> (r: String)
        ensures
            r@ == self.text(),
    {
        match self {
            MessageContent::Text(text) => text,
            MessageContent::Parts(parts) => join(parts.as_slice(), ""),
        }
    }
}

/// The cleaned-up text in an answer: that of the first choice, with the
/// correction rules applied, if there is any.
pub open spec fn polished_text(
    choices: Seq<MessageContent>,
    vocabulary: Seq<Seq<char>>,
) -> Option<Seq<char>> {
    if choices.len() == 0 {
        None
    } else {
        let text = trim(corrected(choices[0].text(), vocabulary));
        if text.len() > 0 {
            Some(text)
        } else {
            None
        }
    }
}

/// The cleaned-up text in an answer.
pub fn polish_answer(choices: Vec<MessageContent>, vocabulary: &[String]) -> (r: Result<
    String,
    NoText,
>)
    ensures
        match r {
            Ok(text) => polished_text(choices@, views(vocabulary@)) == Some(text@),
            Err(_) => polished_text(choices@, views(vocabulary@)) is None,
        },
{
    let mut choices = choices;
    if choices.len() == 0 {
        return Err(NoText);
    }
    let first = choices.swap_remove(0);
    let text = first.into_text();
    let with_corrections = apply_vocabulary_corrections(text.as_str(), vocabulary);
    let polished = trimmed_text(with_corrections.as_str());
    if polished.as_str().is_empty() {
        return Err(NoText);
    }
    Ok(polished)
}

/// The instructions are the same whatever was dictated, in whatever context and
/// with whatever vocabulary.
pub proof fn dictation_never_reaches_the_instructions(
    api_key: Option<Seq<char>>,
    base_url: Seq<char>,
    model: Seq<char>,
    timeout_ms: u64,
    raw: Seq<char>,
    options: SessionOptionsView,
)
    ensures
        polish_request_of(api_key, base_url, model, timeout_ms, raw, options).system
            == DICTATION_PROMPT@,
{
}

/// The completion is bounded, however much was dictated.
pub proof fn completions_are_bounded(characters: nat)
    ensures
        128 <= completion_budget(characters) <= 2_048,
{
}

/// Each entry of the vocabulary goes into the message where it belongs, in order:
/// a rule among the corrections, a plain spelling among the exact terms, and a
/// marked candidate into neither.
pub proof fn entries_are_told_apart(
    raw: Seq<char>,
    options: SessionOptionsView,
    entry: Seq<char>,
)
    ensures
        ({
            let more = SessionOptionsView { vocabulary: options.vocabulary.push(entry), ..options };
            let none = SessionOptionsView { vocabulary: Seq::empty(), ..options };
            let rule = contains(entry, "=>"@) || contains(entry, "->"@);
            let marked = entry.len() > 0 && entry[0] == '@';
            let exact = polish_fields(raw, options)[2].1->Texts_0;
            let corrections = polish_fields(raw, options)[3].1->Texts_0;
            &&& polish_fields(raw, none)[2].1 == JsonValueView::Texts(Seq::empty())
            &&& polish_fields(raw, none)[3].1 == JsonValueView::Texts(Seq::empty())
            &&& polish_fields(raw, more)[2].1 == JsonValueView::Texts(
                if !rule && !marked {
                    exact.push(entry)
                } else {
                    exact
                },
            )
            &&& polish_fields(raw, more)[3].1 == JsonValueView::Texts(
                if rule {
                    corrections.push(entry)
                } else {
                    corrections
                },
            )
        }),
{
    reveal(Seq::filter);
    assert(options.vocabulary.push(entry).drop_last() =~= options.vocabulary);
    assert(Seq::<Seq<char>>::empty().filter(is_exact_term()) =~= Seq::empty());
    assert(Seq::<Seq<char>>::empty().filter(is_correction()) =~= Seq::empty());
}

/// Cleanup may take two tokens for every character and 64 more, within its bounds.
pub proof fn completions_grow_with_the_dictation(characters: nat)
    ensures
        ({
            let budget = completion_budget(characters) as int;
            &&& 128 <= budget <= 2_048
            &&& budget < 2_048 ==> budget >= 2 * characters + 64
            &&& budget > 128 ==> budget <= 2 * characters + 64
        }),
{
}

/// The first choice of an answer alone counts; its text is used without the white
/// space around it, after the correction rules, unless nothing is left.
pub proof fn the_first_choice_is_the_answer(
    choices: Seq<MessageContent>,
    vocabulary: Seq<Seq<char>>,
)
    ensures
        polished_text(Seq::empty(), vocabulary) is None,
        choices.len() > 0 ==> {
            let text = trim(corrected(choices[0].text(), vocabulary));
            &&& polished_text(choices, vocabulary) is None <==> text.len() == 0
            &&& text.len() > 0 ==> polished_text(choices, vocabulary) == Some(text)
            &&& polished_text(choices, Seq::empty()) is None <==> trim(choices[0].text()).len()
                == 0
            &&& trim(choices[0].text()).len() > 0 ==> polished_text(choices, Seq::empty())
                == Some(trim(choices[0].text()))
        },
{
}

/// The text of an answer in parts is all of the parts, one behind another.
pub proof fn parts_are_put_together(part: String, parts: Vec<String>, more: Vec<String>)
    requires
        more@ == parts@.push(part),
    ensures
        MessageContent::Parts(more).text() == MessageContent::Parts(parts).text() + part@,
        parts@.len() == 0 ==> MessageContent::Parts(parts).text().len() == 0,
        MessageContent::Text(part).text() == part@,
{
    reveal_strlit("");
    assert(views(more@) =~= views(parts@).push(part@));
    assert(views(more@).drop_last() =~= views(parts@));
    assert(joined(views(more@), ""@) =~= joined(views(parts@), ""@) + part@);
}

/// The message carries the dictation after the correction rules, the language and
/// what stands around the cursor, each as it is.
pub proof fn the_message_carries_the_dictation(raw: Seq<char>, options: SessionOptionsView)
    ensures
        ({
            let fields = polish_fields(raw, options);
            &&& fields.len() == 6
            &&& fields.contains(
                ("transcription"@, JsonValueView::Text(corrected(raw, options.vocabulary))),
            )
            &&& fields.contains(
                ("detected_or_forced_language"@, JsonValueView::Text(options.language)),
            )
            &&& fields.contains(("context_before"@, JsonValueView::Text(options.context_before)))
            &&& fields.contains(("context_after"@, JsonValueView::Text(options.context_after)))
        }),
{
    let fields = polish_fields(raw, options);
    assert(fields[0].0 == "transcription"@ && fields[1].0 == "detected_or_forced_language"@);
    assert(fields[4].0 == "context_before"@ && fields[5].0 == "context_after"@);
}

/// The body carries the whole request: the model, the instructions and then the
/// message, and the limits of the completion.
pub proof fn the_body_carries_the_cleanup_request(request: PolishRequestView)
    ensures
        ({
            let fields = polish_body_fields(request);
            &&& fields.len() == 5
            &&& fields.contains(("model"@, JsonValueView::Text(request.model)))
            &&& fields.contains(("max_tokens"@, JsonValueView::Whole(request.max_tokens)))
            &&& fields.contains(("stream"@, JsonValueView::Flag(request.stream)))
            &&& fields.contains(
                (
                    "messages"@,
                    JsonValueView::Jsons(
                        seq![
                            chat_message("system"@, request.system),
                            chat_message("user"@, request.user),
                        ],
                    ),
                ),
            )
        }),
{
    let fields = polish_body_fields(request);
    assert(fields[0].0 == "model"@ && fields[1].0 == "messages"@);
    assert(fields[2].0 == "max_tokens"@ && fields[4].0 == "stream"@);
}

} // verus!
