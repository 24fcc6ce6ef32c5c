//! Speech recognition: the choice of the provider, the requests to the remote
//! ones, and what is accepted of their answers.
use crate::endpoint::{address, authorized, endpoint_url, usable_key};
use crate::files::append_bytes;
use crate::json::{flag_field, json_field, jsons_field, pair, text_field};
use crate::outside::{
    base64_digit, base64_standard, base64_text, field_views, json_object, json_object_text,
    JsonField, JsonValueView,
};
use crate::protocol::{
    AsrProvider, RuntimeConfig, RuntimeConfigView, TranscriptResult, TranscriptView,
};
use crate::text::{
    all_ascii, byte_len, concat, contains, is_blank, is_white_space, join, joined,
    joined_text_holds_every_piece, lemma_contains_behind, option_view, same_text, strip_end, trim,
    trimmed_text, trimming_takes_off_white_space_alone, views, CharClass,
};
use crate::worker::{clamped, frame_lengths_round_trip, from_le32, le32, le32_bytes, WorkerManager};
use vstd::prelude::*;

verus! {

/// Bytes in front of the samples of a WAV file.
pub const WAV_HEADER_BYTES: usize = 44;

/// Longest data URL that the Qwen service takes.
pub const MAX_DATA_URL_BYTES: u64 = 10_485_760;

/// Why recognition by a remote provider came to nothing.
#[derive(Debug)]
pub enum AsrError {
    /// A key is required and there is none.
    KeyUnavailable,
    /// The local provider has no endpoint.
    LocalHasNoEndpoint,
    /// The recording does not fit into a WAV file.
    TooLargeForWav,
    /// The recording does not fit into a data URL.
    TooLargeForDataUrl,
    /// The endpoint answered without a choice.
    NoChoices,
    /// The named provider heard nothing.
    NoSpeech(String),
}

impl AsrError {
    /// The message shown for the error.
    pub open spec fn text(self) -> Seq<char> {
        match self {
            AsrError::KeyUnavailable =>
                "ASR API key is unavailable; run `natsu-typelessctl asr-key set`"@,
            AsrError::LocalHasNoEndpoint => "local ASR was routed to the API client"@,
            AsrError::TooLargeForWav => "recording is too large for WAV"@,
            AsrError::TooLargeForDataUrl => "recording exceeds Qwen ASR's 10 MB Data URL limit"@,
            AsrError::NoChoices => "Qwen ASR endpoint returned no choices"@,
            AsrError::NoSpeech(provider) => provider@ + " returned no speech"@,
        }
    }

    /// The message shown for the error.
    pub fn message(&self) -> (r: String)
        ensures
            r@ == self.text(),
    {
        match self {
            AsrError::KeyUnavailable => {
                "ASR API key is unavailable; run `natsu-typelessctl asr-key set`".to_owned()
            },
            AsrError::LocalHasNoEndpoint => "local ASR was routed to the API client".to_owned(),
            AsrError::TooLargeForWav => "recording is too large for WAV".to_owned(),
            AsrError::TooLargeForDataUrl => {
                "recording exceeds Qwen ASR's 10 MB Data URL limit".to_owned()
            },
            AsrError::NoChoices => "Qwen ASR endpoint returned no choices".to_owned(),
            AsrError::NoSpeech(provider) => concat(provider.as_str(), " returned no speech"),
        }
    }
}

/// The two bytes of `n`, least significant first.
pub open spec fn le16(n: u16) -> Seq<u8> {
    seq![(n % 256) as u8, (n / 256) as u8]
}

/// The recording fits into a WAV file.
pub open spec fn fits_wav(pcm: Seq<u8>) -> bool {
    36 + pcm.len() <= u32::MAX
}

/// Mono audio with 16 bit samples at 16 kHz as a WAV file.
pub open spec fn wav_of(pcm: Seq<u8>) -> Seq<u8> {
    seq![0x52u8, 0x49, 0x46, 0x46]  // RIFF
     + le32((36 + pcm.len()) as u32) + seq![
        0x57u8,
        0x41,
        0x56,
        0x45,
        0x66,
        0x6D,
        0x74,
        0x20,
    ]  // WAVEfmt
     + le32(16) + le16(1) + le16(1) + le32(16_000) + le32(32_000) + le16(2) + le16(16) + seq![
        0x64u8,
        0x61,
        0x74,
        0x61,
    ]  // data
     + le32(pcm.len() as u32) + pcm
}

fn append_le16(bytes: &mut Vec<u8>, n: u16)
    ensures
        final(bytes)@ == old(bytes)@ + le16(n),
{
    bytes.push((n % 256) as u8);
    bytes.push((n / 256) as u8);
    assert(bytes@ =~= old(bytes)@ + le16(n));
}

fn append_le32(bytes: &mut Vec<u8>, n: u32)
    ensures
        final(bytes)@ == old(bytes)@ + le32(n),
{
    let encoded = le32_bytes(n);
    append_bytes(bytes, encoded.as_slice());
}

/// Mono audio with 16 bit samples at 16 kHz as a WAV file.
pub fn pcm_to_wav(pcm: &[u8]) -> (r: Result<Vec<u8>, AsrError>)
    ensures
        match r {
            Ok(wav) => fits_wav(pcm@) && wav@ == wav_of(pcm@),
            Err(error) => error is TooLargeForWav && !fits_wav(pcm@),
        },
{
    if pcm.len() as u64 > u32::MAX as u64 - 36 {
        return Err(AsrError::TooLargeForWav);
    }
    let data_len: u32 = pcm.len() as u32;
    let mut wav: Vec<u8> = vec![0x52, 0x49, 0x46, 0x46];
    append_le32(&mut wav, 36 + data_len);
    append_bytes(&mut wav, &[0x57, 0x41, 0x56, 0x45, 0x66, 0x6D, 0x74, 0x20]);
    append_le32(&mut wav, 16);
    append_le16(&mut wav, 1);
    append_le16(&mut wav, 1);
    append_le32(&mut wav, 16_000);
    append_le32(&mut wav, 32_000);
    append_le16(&mut wav, 2);
    append_le16(&mut wav, 16);
    append_bytes(&mut wav, &[0x64, 0x61, 0x74, 0x61]);
    append_le32(&mut wav, data_len);
    append_bytes(&mut wav, pcm);
    assert(wav@ =~= wav_of(pcm@));
    Ok(wav)
}

/// A WAV file is its header followed by the samples, unchanged.
pub proof fn wav_keeps_the_samples(pcm: Seq<u8>)
    ensures
        wav_of(pcm).len() == WAV_HEADER_BYTES + pcm.len(),
        wav_of(pcm).skip(WAV_HEADER_BYTES as int) == pcm,
{
    assert(wav_of(pcm).skip(WAV_HEADER_BYTES as int) =~= pcm);
}

/// The audio as a data URL.
pub open spec fn data_url(wav: Seq<u8>) -> Seq<char> {
    "data:audio/wav;base64,"@ + base64_text(wav)
}

/// Base64 takes four characters for every begun three bytes, all of them ASCII.
pub proof fn base64_is_a_third_longer(bytes: Seq<u8>)
    ensures
        base64_text(bytes).len() == (bytes.len() + 2) / 3 * 4,
        all_ascii(base64_text(bytes)),
    decreases bytes.len(),
{
    assert forall|v: int| 0 <= v < 64 implies (#[trigger] base64_digit(v)) as u32 <= 0x7F by {
        if v < 26 {
            assert(((0x41 + v) as char) as u32 == 0x41 + v);
        } else if v < 52 {
            assert(((0x61 + (v - 26)) as char) as u32 == 0x61 + (v - 26));
        } else if v < 62 {
            assert(((0x30 + (v - 52)) as char) as u32 == 0x30 + (v - 52));
        }
    }
    if bytes.len() > 3 {
        base64_is_a_third_longer(bytes.skip(3));
    }
}

/// In ASCII text every character is one byte.
proof fn lemma_ascii_bytes(s: Seq<char>)
    requires
        all_ascii(s),
    ensures
        byte_len(s) == s.len(),
    decreases s.len(),
{
    if s.len() > 0 {
        assert(s.last() as u32 <= 0x7F);
        lemma_ascii_bytes(s.drop_last());
    }
}

/// A data URL is ASCII, and its length follows from that of the audio.
pub proof fn data_urls_have_a_known_length(wav: Seq<u8>)
    ensures
        byte_len(data_url(wav)) == 22 + (wav.len() + 2) / 3 * 4,
{
    reveal_strlit("data:audio/wav;base64,");
    base64_is_a_third_longer(wav);
    assert(all_ascii(data_url(wav)));
    lemma_ascii_bytes(data_url(wav));
}

/// The language to insist on: none if it is to be detected.
pub open spec fn forced_language(language: Seq<char>) -> Option<Seq<char>> {
    if language == "auto"@ {
        None
    } else {
        Some(language)
    }
}

fn language_option(language: &str) -> (r: Option<String>)
    ensures
        option_view(r) == forced_language(language@),
{
    if same_text(language, "auto") {
        None
    } else {
        Some(language.to_owned())
    }
}

/// A request to the Qwen service.
#[derive(Debug)]
pub struct QwenRequest {
    pub url: String,
    pub bearer: Option<String>,
    pub timeout_ms: u64,
    pub model: String,
    /// System message with the words to expect.
    pub context: Option<String>,
    /// User message: the recording as a data URL.
    pub audio: String,
    pub language: Option<String>,
    /// Numbers are written as digits.
    pub enable_itn: bool,
    pub stream: bool,
}

/// The text held by [`QwenRequest`].
#[verifier::ext_equal]
pub struct QwenRequestView {
    pub url: Seq<char>,
    pub bearer: Option<Seq<char>>,
    pub timeout_ms: u64,
    pub model: Seq<char>,
    pub context: Option<Seq<char>>,
    pub audio: Seq<char>,
    pub language: Option<Seq<char>>,
    pub enable_itn: bool,
    pub stream: bool,
}

impl View for QwenRequest {
    type V = QwenRequestView;

    open spec fn view(&self) -> QwenRequestView {
        QwenRequestView {
            url: self.url@,
            bearer: option_view(self.bearer),
            timeout_ms: self.timeout_ms,
            model: self.model@,
            context: option_view(self.context),
            audio: self.audio@,
            language: option_view(self.language),
            enable_itn: self.enable_itn,
            stream: self.stream,
        }
    }
}

/// The system message with the words to expect.
pub open spec fn qwen_context(vocabulary: Seq<Seq<char>>) -> Option<Seq<char>> {
    if vocabulary.len() == 0 {
        None
    } else {
        Some("语音识别上下文与实体词表："@ + joined(vocabulary, "、"@))
    }
}

/// The request to the Qwen service.
pub open spec fn qwen_request_of(
    config: RuntimeConfigView,
    api_key: Option<Seq<char>>,
    pcm: Seq<u8>,
    language: Seq<char>,
    vocabulary: Seq<Seq<char>>,
) -> QwenRequestView {
    QwenRequestView {
        url: address(config.asr_base_url, "/chat/completions"@),
        bearer: usable_key(api_key),
        timeout_ms: config.asr_timeout_ms,
        model: config.asr_model,
        context: qwen_context(vocabulary),
        audio: data_url(wav_of(pcm)),
        language: forced_language(language),
        enable_itn: true,
        stream: false,
    }
}

/// The recording fits into a data URL of the Qwen service.
pub open spec fn fits_data_url(pcm: Seq<u8>) -> bool {
    byte_len(data_url(wav_of(pcm))) <= MAX_DATA_URL_BYTES
}

/// The request to the Qwen service, unless the recording is too large for it.
pub fn qwen_request(
    config: &RuntimeConfig,
    api_key: &Option<String>,
    pcm: &[u8],
    language: &str,
    vocabulary: &[String],
) -> (r: Result<QwenRequest, AsrError>)
    ensures
        match r {
            Ok(request) => {
                &&& fits_wav(pcm@) && fits_data_url(pcm@)
                &&& request@ == qwen_request_of(
                    config@,
                    option_view(*api_key),
                    pcm@,
                    language@,
                    views(vocabulary@),
                )
            },
            Err(AsrError::TooLargeForWav) => !fits_wav(pcm@),
            Err(AsrError::TooLargeForDataUrl) => fits_wav(pcm@) && !fits_data_url(pcm@),
            Err(_) => false,
        },
{
    let wav = match pcm_to_wav(pcm) {
        Ok(wav) => wav,
        Err(_) => {
            return Err(AsrError::TooLargeForWav);
        },
    };
    proof {
        data_urls_have_a_known_length(wav@);
        wav_keeps_the_samples(pcm@);
    }
    let url_bytes: u64 = 22 + (wav.len() as u64 + 2) / 3 * 4;
    if url_bytes > MAX_DATA_URL_BYTES {
        return Err(AsrError::TooLargeForDataUrl);
    }
    let encoded = base64_standard(wav.as_slice());
    let audio = concat("data:audio/wav;base64,", encoded.as_str());
    assert(views(vocabulary@).len() == vocabulary@.len());
    let context = if vocabulary.len() == 0 {
        None
    } else {
        let terms = join(vocabulary, "、");
        Some(concat("语音识别上下文与实体词表：", terms.as_str()))
    };
    Ok(
        QwenRequest {
            url: endpoint_url(config.asr_base_url.as_str(), "/chat/completions"),
            bearer: authorized(api_key),
            timeout_ms: config.asr_timeout_ms,
            model: config.asr_model.clone(),
            context,
            audio,
            language: language_option(language),
            enable_itn: true,
            stream: false,
        },
    )
}

/// A message of a conversation with one part.
pub open spec fn qwen_message(role: Seq<char>, part: Seq<char>) -> Seq<char> {
    json_object_text(
        seq![("role"@, JsonValueView::Text(role)), ("content"@, JsonValueView::Jsons(seq![part]))],
    )
}

/// A part that holds text.
pub open spec fn text_part(text: Seq<char>) -> Seq<char> {
    json_object_text(
        seq![("type"@, JsonValueView::Text("text"@)), ("text"@, JsonValueView::Text(text))],
    )
}

/// A part that holds audio as a data URL.
pub open spec fn audio_part(data: Seq<char>) -> Seq<char> {
    json_object_text(
        seq![
            ("type"@, JsonValueView::Text("input_audio"@)),
            (
                "input_audio"@,
                JsonValueView::Json(json_object_text(seq![("data"@, JsonValueView::Text(data))])),
            ),
        ],
    )
}

/// The conversation: the words to expect, if there are any, then the recording.
pub open spec fn qwen_messages(request: QwenRequestView) -> Seq<Seq<char>> {
    let recording = qwen_message("user"@, audio_part(request.audio));
    match request.context {
        Some(text) => seq![qwen_message("system"@, text_part(text)), recording],
        None => seq![recording],
    }
}

/// How recognition is to go about it.
pub open spec fn qwen_options(request: QwenRequestView) -> Seq<(Seq<char>, JsonValueView)> {
    let itn = ("enable_itn"@, JsonValueView::Flag(request.enable_itn));
    match request.language {
        Some(language) => seq![itn, ("language"@, JsonValueView::Text(language))],
        None => seq![itn],
    }
}

/// What the body of a request to the Qwen service holds.
pub open spec fn qwen_body_fields(request: QwenRequestView) -> Seq<(Seq<char>, JsonValueView)> {
    seq![
        ("model"@, JsonValueView::Text(request.model)),
        ("messages"@, JsonValueView::Jsons(qwen_messages(request))),
        ("stream"@, JsonValueView::Flag(request.stream)),
        ("asr_options"@, JsonValueView::Json(json_object_text(qwen_options(request)))),
    ]
}

fn message_with(role: &str, part: String) -> (r: String)
    ensures
        r@ == qwen_message(role@, part@),
{
    let mut content: Vec<String> = Vec::new();
    content.push(part);
    assert(views(content@) =~= seq![part@]);
    pair(text_field("role", role), jsons_field("content", content))
}

/// The body of a request to the Qwen service.
pub fn qwen_body(request: &QwenRequest) -> (r: String)
    ensures
        r@ == json_object_text(qwen_body_fields(request@)),
{
    let mut messages: Vec<String> = Vec::new();
    match &request.context {
        Some(text) => {
            let part = pair(text_field("type", "text"), text_field("text", text.as_str()));
            messages.push(message_with("system", part));
        },
        None => {},
    }
    let mut data: Vec<JsonField> = Vec::new();
    data.push(text_field("data", request.audio.as_str()));
    assert(field_views(data@) =~= seq![("data"@, JsonValueView::Text(request.audio@))]);
    let audio = json_object(data.as_slice());
    let part = pair(text_field("type", "input_audio"), json_field("input_audio", audio));
    messages.push(message_with("user", part));
    assert(views(messages@) =~= qwen_messages(request@));
    let mut options: Vec<JsonField> = Vec::new();
    options.push(flag_field("enable_itn", request.enable_itn));
    match &request.language {
        Some(language) => options.push(text_field("language", language.as_str())),
        None => {},
    }
    assert(field_views(options@) =~= qwen_options(request@));
    let options_json = json_object(options.as_slice());
    let mut fields: Vec<JsonField> = Vec::new();
    fields.push(text_field("model", request.model.as_str()));
    fields.push(jsons_field("messages", messages));
    fields.push(flag_field("stream", request.stream));
    fields.push(json_field("asr_options", options_json));
    assert(field_views(fields@) =~= qwen_body_fields(request@));
    json_object(fields.as_slice())
}

/// A request to a service with the standard transcription contract: the parts
/// of a form.
#[derive(Debug)]
pub struct TranscriptionRequest {
    pub url: String,
    pub bearer: Option<String>,
    pub timeout_ms: u64,
    pub model: String,
    pub response_format: String,
    pub file_name: String,
    pub mime_type: String,
    pub wav: Vec<u8>,
    pub language: Option<String>,
    pub prompt: Option<String>,
}

/// The content of [`TranscriptionRequest`].
#[verifier::ext_equal]
pub struct TranscriptionRequestView {
    pub url: Seq<char>,
    pub bearer: Option<Seq<char>>,
    pub timeout_ms: u64,
    pub model: Seq<char>,
    pub response_format: Seq<char>,
    pub file_name: Seq<char>,
    pub mime_type: Seq<char>,
    pub wav: Seq<u8>,
    pub language: Option<Seq<char>>,
    pub prompt: Option<Seq<char>>,
}

impl View for TranscriptionRequest {
    type V = TranscriptionRequestView;

    open spec fn view(&self) -> TranscriptionRequestView {
        TranscriptionRequestView {
            url: self.url@,
            bearer: option_view(self.bearer),
            timeout_ms: self.timeout_ms,
            model: self.model@,
            response_format: self.response_format@,
            file_name: self.file_name@,
            mime_type: self.mime_type@,
            wav: self.wav@,
            language: option_view(self.language),
            prompt: option_view(self.prompt),
        }
    }
}

/// The request to a service with the standard transcription contract.
pub open spec fn transcription_request_of(
    config: RuntimeConfigView,
    api_key: Option<Seq<char>>,
    pcm: Seq<u8>,
    language: Seq<char>,
    vocabulary: Seq<Seq<char>>,
) -> TranscriptionRequestView {
    TranscriptionRequestView {
        url: address(config.asr_base_url, "/audio/transcriptions"@),
        bearer: usable_key(api_key),
        timeout_ms: config.asr_timeout_ms,
        model: config.asr_model,
        response_format: "json"@,
        file_name: "recording.wav"@,
        mime_type: "audio/wav"@,
        wav: wav_of(pcm),
        language: forced_language(language),
        prompt: if vocabulary.len() == 0 {
            None
        } else {
            Some(joined(vocabulary, ", "@))
        },
    }
}

/// The request to a service with the standard transcription contract.
pub fn transcription_request(
    config: &RuntimeConfig,
    api_key: &Option<String>,
    pcm: &[u8],
    language: &str,
    vocabulary: &[String],
) -> (r: Result<TranscriptionRequest, AsrError>)
    ensures
        match r {
            Ok(request) => {
                &&& fits_wav(pcm@)
                &&& request@ == transcription_request_of(
                    config@,
                    option_view(*api_key),
                    pcm@,
                    language@,
                    views(vocabulary@),
                )
            },
            Err(error) => error is TooLargeForWav && !fits_wav(pcm@),
        },
{
    let wav = match pcm_to_wav(pcm) {
        Ok(wav) => wav,
        Err(error) => {
            return Err(error);
        },
    };
    assert(views(vocabulary@).len() == vocabulary@.len());
    Ok(
        TranscriptionRequest {
            url: endpoint_url(config.asr_base_url.as_str(), "/audio/transcriptions"),
            bearer: authorized(api_key),
            timeout_ms: config.asr_timeout_ms,
            model: config.asr_model.clone(),
            response_format: "json".to_owned(),
            file_name: "recording.wav".to_owned(),
            mime_type: "audio/wav".to_owned(),
            wav,
            language: language_option(language),
            prompt: if vocabulary.len() == 0 {
                None
            } else {
                Some(join(vocabulary, ", "))
            },
        },
    )
}

/// The text without surrounding white space, if any is left.
pub fn nonempty_text(value: String, provider: &str) -> (r: Result<String, AsrError>)
    ensures
        match r {
            Ok(text) => trim(value@).len() > 0 && text@ == trim(value@),
            Err(AsrError::NoSpeech(name)) => trim(value@).len() == 0 && name@ == provider@,
            Err(_) => false,
        },
{
    let text = trimmed_text(value.as_str());
    if text.as_str().is_empty() {
        return Err(AsrError::NoSpeech(provider.to_owned()));
    }
    Ok(text)
}

/// A choice in an answer of the Qwen service: the text, and the language of
/// each annotation.
#[derive(Debug)]
pub struct QwenChoice {
    pub content: String,
    pub languages: Vec<String>,
}

/// The first language that is not blank, `fallback` if there is none.
pub open spec fn first_language(languages: Seq<Seq<char>>, fallback: Seq<char>) -> Seq<char>
    decreases languages.len(),
{
    if languages.len() == 0 {
        fallback
    } else if trim(languages[0]).len() > 0 {
        languages[0]
    } else {
        first_language(languages.drop_first(), fallback)
    }
}

fn detected_language(languages: &[String], fallback: &str) -> (r: String)
    ensures
        r@ == first_language(views(languages@), fallback@),
{
    let mut i: usize = 0;
    assert(views(languages@).skip(0) =~= views(languages@));
    while i < languages.len()
        invariant
            i <= languages.len(),
            first_language(views(languages@), fallback@) == first_language(
                views(languages@).skip(i as int),
                fallback@,
            ),
        decreases languages.len() - i,
    {
        assert(views(languages@).skip(i as int).drop_first() =~= views(languages@).skip(i + 1));
        if !is_blank(languages[i].as_str()) {
            return languages[i].clone();
        }
        i += 1;
    }
    fallback.to_owned()
}

/// The transcript in an answer of the Qwen service: its first choice.
pub fn qwen_transcript(
    choices: &[QwenChoice],
    language: &str,
) -> (r: Result<TranscriptResult, AsrError>)
    ensures
        match r {
            Ok(transcript) => {
                &&& choices@.len() > 0 && trim(choices@[0].content@).len() > 0
                &&& transcript@ == (TranscriptView {
                    text: trim(choices@[0].content@),
                    language: first_language(views(choices@[0].languages@), language@),
                })
            },
            Err(AsrError::NoChoices) => choices@.len() == 0,
            Err(AsrError::NoSpeech(provider)) => {
                &&& choices@.len() > 0 && trim(choices@[0].content@).len() == 0
                &&& provider@ == "Qwen ASR"@
            },
            Err(_) => false,
        },
{
    if choices.len() == 0 {
        return Err(AsrError::NoChoices);
    }
    let choice = &choices[0];
    match nonempty_text(choice.content.clone(), "Qwen ASR") {
        Ok(text) => Ok(
            TranscriptResult {
                text,
                language: detected_language(choice.languages.as_slice(), language),
            },
        ),
        Err(error) => Err(error),
    }
}

/// The transcript in an answer of a service with the standard contract. The
/// requested language stands in for one that is not reported.
pub fn openai_transcript(
    text: String,
    reported_language: String,
    language: &str,
) -> (r: Result<TranscriptResult, AsrError>)
    ensures
        match r {
            Ok(transcript) => {
                &&& trim(text@).len() > 0
                &&& transcript@ == (TranscriptView {
                    text: trim(text@),
                    language: if trim(reported_language@).len() == 0 {
                        language@
                    } else {
                        reported_language@
                    },
                })
            },
            Err(AsrError::NoSpeech(provider)) => {
                &&& trim(text@).len() == 0
                &&& provider@ == "OpenAI-compatible ASR"@
            },
            Err(_) => false,
        },
{
    match nonempty_text(text, "OpenAI-compatible ASR") {
        Ok(text) => Ok(
            TranscriptResult {
                text,
                language: if is_blank(reported_language.as_str()) {
                    language.to_owned()
                } else {
                    reported_language
                },
            },
        ),
        Err(error) => Err(error),
    }
}

/// Who is asked for a transcript, and how.
#[derive(Debug)]
pub enum AsrCall {
    /// The worker process on this machine.
    Local,
    Qwen(QwenRequest),
    OpenAi(TranscriptionRequest),
}

/// Whether recognition is ready.
#[derive(Debug, Clone, Copy, PartialEq, Eq, Structural)]
pub enum Readiness {
    Known(bool),
    /// It is ready if a key can be found.
    WithKey,
}

/// Chooses the provider. The local worker is used only where the configuration
/// names it, and a remote provider is never replaced by another one.
#[derive(Debug)]
pub struct AsrRouter {
    local: WorkerManager,
}

impl AsrRouter {
    /// What is known of the local worker.
    pub closed spec fn worker_state(&self) -> WorkerManager {
        self.local
    }

    /// The local worker is in a possible state.
    pub open spec fn wf(&self) -> bool {
        self.worker_state().wf()
    }

    /// A router over the worker.
    pub fn new(local: WorkerManager) -> (r: AsrRouter)
        ensures
            r.worker_state() == local,
    {
        AsrRouter { local }
    }

    /// The local worker.
    pub fn local(&self) -> (r: &WorkerManager)
        ensures
            *r == self.worker_state(),
    {
        &self.local
    }

    /// The local worker.
    pub fn local_mut(&mut self) -> (r: &mut WorkerManager)
        ensures
            *r == old(self).worker_state(),
            final(self).worker_state() == *final(r),
    {
        &mut self.local
    }

    /// Takes over the idle time, and gives the local worker up when another
    /// provider is chosen. Says whether there is a process to kill.
    pub fn configure(&mut self, config: &RuntimeConfig) -> (r: bool)
        requires
            old(self).wf(),
        ensures
            final(self).wf(),
            final(self).worker_state().minutes() == clamped(config.model_idle_minutes, 1, 120),
            final(self).worker_state().settings() == old(self).worker_state().settings(),
            final(self).worker_state().generation() == old(self).worker_state().generation(),
            config.asr_provider == AsrProvider::Local ==> {
                &&& !r
                &&& final(self).worker_state().is_running() == old(
                    self,
                ).worker_state().is_running()
                &&& final(self).worker_state().model_ready() == old(
                    self,
                ).worker_state().model_ready()
            },
            config.asr_provider != AsrProvider::Local ==> {
                &&& r == old(self).worker_state().is_running()
                &&& !final(self).worker_state().is_running()
                &&& !final(self).worker_state().model_ready()
            },
    {
        self.local.set_idle_minutes(config.model_idle_minutes);
        if config.asr_provider != AsrProvider::Local {
            self.local.stop()
        } else {
            false
        }
    }

    /// Whether the local worker is to be started ahead of its first use.
    pub fn prewarm(&self, config: &RuntimeConfig) -> (r: bool)
        ensures
            r == (config.asr_provider == AsrProvider::Local),
    {
        config.asr_provider == AsrProvider::Local
    }

    /// The call that turns the recording into text, by the configured provider.
    /// A remote provider that requires a key is not called without one.
    pub fn transcribe(
        &self,
        config: &RuntimeConfig,
        api_key: &Option<String>,
        pcm: &[u8],
        language: &str,
        vocabulary: &[String],
    ) -> (r: Result<AsrCall, AsrError>)
        ensures
            ({
                let key = option_view(*api_key);
                let terms = views(vocabulary@);
                let refused = config.asr_api_key_required && api_key is None;
                match config.asr_provider {
                    AsrProvider::Local => r == Ok::<AsrCall, AsrError>(AsrCall::Local),
                    AsrProvider::QwenApi => match r {
                        Ok(AsrCall::Qwen(request)) => {
                            &&& !refused && fits_wav(pcm@) && fits_data_url(pcm@)
                            &&& request@ == qwen_request_of(config@, key, pcm@, language@, terms)
                        },
                        Ok(_) => false,
                        Err(AsrError::KeyUnavailable) => refused,
                        Err(AsrError::TooLargeForWav) => !refused && !fits_wav(pcm@),
                        Err(AsrError::TooLargeForDataUrl) => !refused && fits_wav(pcm@)
                            && !fits_data_url(pcm@),
                        Err(_) => false,
                    },
                    AsrProvider::OpenaiCompatible => match r {
                        Ok(AsrCall::OpenAi(request)) => {
                            &&& !refused && fits_wav(pcm@)
                            &&& request@ == transcription_request_of(
                                config@,
                                key,
                                pcm@,
                                language@,
                                terms,
                            )
                        },
                        Ok(_) => false,
                        Err(AsrError::KeyUnavailable) => refused,
                        Err(AsrError::TooLargeForWav) => !refused && !fits_wav(pcm@),
                        Err(_) => false,
                    },
                }
            }),
    {
        match config.asr_provider {
            AsrProvider::Local => Ok(AsrCall::Local),
            AsrProvider::QwenApi | AsrProvider::OpenaiCompatible => {
                if api_key.is_none() && config.asr_api_key_required {
                    return Err(AsrError::KeyUnavailable);
                }
                api_request(config, api_key, pcm, language, vocabulary)
            },
        }
    }

    /// Whether a recording could be recognized now.
    pub fn is_ready(&self, config: &RuntimeConfig) -> (r: Readiness)
        ensures
            r == (if config.asr_provider == AsrProvider::Local {
                Readiness::Known(self.worker_state().model_ready())
            } else if !config.asr_api_key_required {
                Readiness::Known(true)
            } else {
                Readiness::WithKey
            }),
    {
        if config.asr_provider == AsrProvider::Local {
            return Readiness::Known(self.local.is_ready());
        }
        if !config.asr_api_key_required {
            return Readiness::Known(true);
        }
        Readiness::WithKey
    }
}

/// The request to the configured remote provider.
pub fn api_request(
    config: &RuntimeConfig,
    api_key: &Option<String>,
    pcm: &[u8],
    language: &str,
    vocabulary: &[String],
) -> (r: Result<AsrCall, AsrError>)
    ensures
        ({
            let key = option_view(*api_key);
            let terms = views(vocabulary@);
            match config.asr_provider {
                AsrProvider::Local => r matches Err(error) && error is LocalHasNoEndpoint,
                AsrProvider::QwenApi => match r {
                    Ok(AsrCall::Qwen(request)) => {
                        &&& fits_wav(pcm@) && fits_data_url(pcm@)
                        &&& request@ == qwen_request_of(config@, key, pcm@, language@, terms)
                    },
                    Ok(_) => false,
                    Err(AsrError::TooLargeForWav) => !fits_wav(pcm@),
                    Err(AsrError::TooLargeForDataUrl) => fits_wav(pcm@) && !fits_data_url(pcm@),
                    Err(_) => false,
                },
                AsrProvider::OpenaiCompatible => match r {
                    Ok(AsrCall::OpenAi(request)) => {
                        &&& fits_wav(pcm@)
                        &&& request@ == transcription_request_of(
                            config@,
                            key,
                            pcm@,
                            language@,
                            terms,
                        )
                    },
                    Ok(_) => false,
                    Err(AsrError::TooLargeForWav) => !fits_wav(pcm@),
                    Err(_) => false,
                },
            }
        }),
{
    match config.asr_provider {
        AsrProvider::QwenApi => match qwen_request(config, api_key, pcm, language, vocabulary) {
            Ok(request) => Ok(AsrCall::Qwen(request)),
            Err(error) => Err(error),
        },
        AsrProvider::OpenaiCompatible => {
            match transcription_request(config, api_key, pcm, language, vocabulary) {
                Ok(request) => Ok(AsrCall::OpenAi(request)),
                Err(error) => Err(error),
            }
        },
        AsrProvider::Local => Err(AsrError::LocalHasNoEndpoint),
    }
}

/// The number with these two bytes, least significant first.
pub open spec fn from_le16(bytes: Seq<u8>) -> int {
    bytes[0] + bytes[1] * 256
}

/// The fields of a WAV file agree with its content, for recordings of every length
/// that fits: the length of the samples, that of the whole file less 8, and one
/// channel of 16 bit samples at 16 kHz.
pub proof fn wav_fields_agree_with_the_content(pcm: Seq<u8>)
    requires
        36 + pcm.len() <= 0xFFFF_FFFF,
    ensures
        ({
            let wav = wav_of(pcm);
            &&& from_le32(wav.subrange(40, 44)) == pcm.len()
            &&& from_le32(wav.subrange(4, 8)) == wav.len() - 8
            &&& wav.subrange(0, 4) == seq![0x52u8, 0x49, 0x46, 0x46]
            &&& wav.subrange(8, 16) == seq![0x57u8, 0x41, 0x56, 0x45, 0x66, 0x6D, 0x74, 0x20]
            &&& from_le32(wav.subrange(16, 20)) == 16
            &&& from_le16(wav.subrange(20, 22)) == 1
            &&& from_le16(wav.subrange(22, 24)) == 1
            &&& from_le32(wav.subrange(24, 28)) == 16_000
            &&& from_le32(wav.subrange(28, 32)) == 16_000 * 2
            &&& from_le16(wav.subrange(32, 34)) == 2
            &&& from_le16(wav.subrange(34, 36)) == 16
            &&& wav.subrange(36, 40) == seq![0x64u8, 0x61, 0x74, 0x61]
            &&& wav.skip(44) == pcm
            &&& fits_wav(pcm)
        }),
{
    let wav = wav_of(pcm);
    wav_keeps_the_samples(pcm);
    frame_lengths_round_trip((36 + pcm.len()) as u32);
    frame_lengths_round_trip(pcm.len() as u32);
    frame_lengths_round_trip(16);
    frame_lengths_round_trip(16_000);
    frame_lengths_round_trip(32_000);
    assert(wav.subrange(0, 4) =~= seq![0x52u8, 0x49, 0x46, 0x46]);
    assert(wav.subrange(4, 8) =~= le32((36 + pcm.len()) as u32));
    assert(wav.subrange(8, 16) =~= seq![0x57u8, 0x41, 0x56, 0x45, 0x66, 0x6D, 0x74, 0x20]);
    assert(wav.subrange(16, 20) =~= le32(16));
    assert(wav.subrange(20, 22) =~= le16(1));
    assert(wav.subrange(22, 24) =~= le16(1));
    assert(wav.subrange(24, 28) =~= le32(16_000));
    assert(wav.subrange(28, 32) =~= le32(32_000));
    assert(wav.subrange(32, 34) =~= le16(2));
    assert(wav.subrange(34, 36) =~= le16(16));
    assert(wav.subrange(36, 40) =~= seq![0x64u8, 0x61, 0x74, 0x61]);
    assert(wav.subrange(40, 44) =~= le32(pcm.len() as u32));
}

/// The language is forced unless it is to be detected, and every word to expect is
/// told to the provider.
pub proof fn providers_are_told_what_to_expect(
    config: RuntimeConfigView,
    api_key: Option<Seq<char>>,
    pcm: Seq<u8>,
    language: Seq<char>,
    vocabulary: Seq<Seq<char>>,
)
    ensures
        ({
            let qwen = qwen_request_of(config, api_key, pcm, language, vocabulary);
            let form = transcription_request_of(config, api_key, pcm, language, vocabulary);
            &&& language == "auto"@ ==> qwen.language is None && form.language is None
            &&& language != "auto"@ ==> qwen.language == Some(language) && form.language == Some(
                language,
            )
            &&& vocabulary.len() == 0 ==> qwen.context is None && form.prompt is None
            &&& vocabulary.len() > 0 ==> qwen.context is Some && form.prompt is Some
            &&& forall|i: int|
                0 <= i < vocabulary.len() ==> contains(
                    qwen.context->0,
                    #[trigger] vocabulary[i],
                ) && contains(form.prompt->0, vocabulary[i])
        }),
{
    assert forall|i: int| 0 <= i < vocabulary.len() implies contains(
        qwen_context(vocabulary)->0,
        #[trigger] vocabulary[i],
    ) && contains(joined(vocabulary, ", "@), vocabulary[i]) by {
        joined_text_holds_every_piece(vocabulary, "、"@, i);
        joined_text_holds_every_piece(vocabulary, ", "@, i);
        lemma_contains_behind(
            "语音识别上下文与实体词表："@,
            joined(vocabulary, "、"@),
            vocabulary[i],
        );
    }
}

/// A request goes to the configured endpoint and model, in time, with the key that
/// was found, and carries the whole recording.
pub proof fn recordings_go_to_the_configured_endpoint(
    config: RuntimeConfigView,
    api_key: Option<Seq<char>>,
    pcm: Seq<u8>,
    language: Seq<char>,
    vocabulary: Seq<Seq<char>>,
)
    ensures
        ({
            let root = strip_end(config.asr_base_url, CharClass::Only('/'));
            let qwen = qwen_request_of(config, api_key, pcm, language, vocabulary);
            let form = transcription_request_of(config, api_key, pcm, language, vocabulary);
            &&& qwen.url == root + "/chat/completions"@
            &&& form.url == root + "/audio/transcriptions"@
            &&& qwen.model == config.asr_model && form.model == config.asr_model
            &&& qwen.timeout_ms == config.asr_timeout_ms
            &&& form.timeout_ms == config.asr_timeout_ms
            &&& api_key is Some && trim(api_key->0).len() > 0 ==> qwen.bearer == api_key
                && form.bearer == api_key
            &&& api_key is None ==> qwen.bearer is None && form.bearer is None
            &&& qwen.audio == "data:audio/wav;base64,"@ + base64_text(form.wav)
            &&& form.wav.skip(44) == pcm
            &&& qwen.enable_itn && !qwen.stream
        }),
{
    wav_keeps_the_samples(pcm);
}

/// The first language that is not blank is the one detected; without any, the one
/// asked for stands in.
pub proof fn the_first_reported_language_counts(
    languages: Seq<Seq<char>>,
    fallback: Seq<char>,
    k: int,
)
    requires
        0 <= k <= languages.len(),
        forall|i: int| 0 <= i < k ==> trim(#[trigger] languages[i]).len() == 0,
    ensures
        k < languages.len() && trim(languages[k]).len() > 0 ==> first_language(languages, fallback)
            == languages[k],
        k == languages.len() ==> first_language(languages, fallback) == fallback,
    decreases k,
{
    if k > 0 {
        let rest = languages.drop_first();
        assert(trim(languages[0]).len() == 0);
        assert forall|i: int| 0 <= i < k - 1 implies trim(#[trigger] rest[i]).len() == 0 by {
            assert(rest[i] == languages[i + 1]);
        }
        the_first_reported_language_counts(rest, fallback, k - 1);
    }
}

/// Whether a recording can be sent depends on its length alone: up to what the
/// length fields of a WAV file hold, and for a data URL up to ten mebibytes of it.
pub proof fn recordings_fit_by_their_length(pcm: Seq<u8>)
    ensures
        fits_wav(pcm) <==> pcm.len() <= 4_294_967_259,
        fits_data_url(pcm) <==> 22 + (pcm.len() + 46) / 3 * 4 <= 10 * 1_024 * 1_024,
{
    wav_keeps_the_samples(pcm);
    data_urls_have_a_known_length(wav_of(pcm));
}

/// The conversation ends with the recording, in front of which stand the words to
/// expect if there are any; and a language is named exactly if one is forced.
pub proof fn the_body_carries_the_request(request: QwenRequestView)
    ensures
        qwen_messages(request).len() > 0,
        qwen_messages(request).last() == qwen_message("user"@, audio_part(request.audio)),
        request.context is None ==> qwen_messages(request).len() == 1,
        request.context is Some ==> qwen_messages(request).len() == 2 && qwen_messages(request)[0]
            == qwen_message("system"@, text_part(request.context->0)),
        qwen_options(request).contains(("enable_itn"@, JsonValueView::Flag(request.enable_itn))),
        request.language is Some ==> qwen_options(request).contains(
            ("language"@, JsonValueView::Text(request.language->0)),
        ),
        request.language is None ==> qwen_options(request).len() == 1,
{
    let options = qwen_options(request);
    assert(options[0] == ("enable_itn"@, JsonValueView::Flag(request.enable_itn)));
    if request.language is Some {
        assert(options[1] == ("language"@, JsonValueView::Text(request.language->0)));
    }
}

/// The text of an answer is handed over without the white space around it and with
/// nothing else changed, whoever answered; blank text is no speech.
pub proof fn answers_are_handed_over_trimmed(
    before: Seq<char>,
    heard: Seq<char>,
    after: Seq<char>,
    text: String,
    reported: String,
    language: &str,
    r: Result<TranscriptResult, AsrError>,
)
    requires
        forall|i: int| 0 <= i < before.len() ==> is_white_space(#[trigger] before[i]),
        forall|i: int| 0 <= i < after.len() ==> is_white_space(#[trigger] after[i]),
        heard.len() > 0 ==> !is_white_space(heard[0]) && !is_white_space(heard.last()),
        text@ == before + heard + after,
        call_ensures(openai_transcript, (text, reported, language), r),
    ensures
        heard.len() > 0 ==> {
            &&& r is Ok
            &&& r->Ok_0.text@ == heard
            &&& trim(reported@).len() > 0 ==> r->Ok_0.language@ == reported@
            &&& trim(reported@).len() == 0 ==> r->Ok_0.language@ == language@
        },
        heard.len() == 0 ==> r is Err && r->Err_0 is NoSpeech,
{
    trimming_takes_off_white_space_alone(before, heard, after);
}

} // verus!
