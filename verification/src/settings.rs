//! Bounds on what can be configured, and on what a session may bring along.
use crate::outside::{parse_url, parsed_url, url_view, UrlParts, UrlPartsView};
use crate::protocol::{
    RuntimeConfig, RuntimeConfigView, SessionOptions, SessionOptionsView, DEFAULT_ASR_BASE_URL,
    DEFAULT_ASR_MODEL, DEFAULT_CLOUD_BASE_URL, DEFAULT_CLOUD_MODEL,
};
use crate::text::{
    byte_len, byte_len_at_most, chars_of, control, first_chars, head, is_control, same_text,
    string_of, strip_end, tail, trim, trimmed, trimming_is_idempotent, views, without_end,
    CharClass,
};
use crate::text::{
    bytes_are_counted_as_in_utf8, is_white_space, lemma_blank,
    stripping_takes_off_one_character_alone, trimming_takes_off_white_space_alone,
};
use crate::vocabulary::{deduplicated, merge_vocabulary};
use crate::worker::{clamp, clamped};
use vstd::prelude::*;
use vstd::slice::slice_subrange;
use vstd::utf8::encode_utf8;

verus! {

/// Longest name of a model, in bytes.
pub const MAX_MODEL_BYTES: usize = 256;

/// Most vocabulary entries of a session.
pub const MAX_SESSION_TERMS: usize = 128;

/// Most characters of a vocabulary entry of a session.
pub const MAX_SESSION_TERM_CHARS: usize = 80;

/// Most characters in front of the cursor.
pub const MAX_CONTEXT_BEFORE: usize = 256;

/// Most characters behind the cursor.
pub const MAX_CONTEXT_AFTER: usize = 64;

/// The first `count` characters.
pub fn head_chars(value: &str, count: usize) -> (r: String)
    ensures
        r@ == head(value@, count as nat),
{
    let chars = chars_of(value);
    string_of(first_chars(chars.as_slice(), count))
}

/// The last `count` characters.
pub fn tail_chars(value: &str, count: usize) -> (r: String)
    ensures
        r@ == tail(value@, count as nat),
{
    let chars = chars_of(value);
    if chars.len() <= count {
        return value.to_owned();
    }
    let start: usize = chars.len() - count;
    assert(chars@.subrange(start as int, chars@.len() as int) =~= chars@.skip(start as int));
    string_of(slice_subrange(chars.as_slice(), start, chars.len()))
}

/// `s` holds a control character.
pub open spec fn has_control(s: Seq<char>) -> bool {
    exists|i: int| 0 <= i < s.len() && is_control(#[trigger] s[i])
}

/// `value` without surrounding white space if that can name a model, else
/// `default`.
pub open spec fn normalized_model(value: Seq<char>, default: Seq<char>) -> Seq<char> {
    let name = trim(value);
    if name.len() > 0 && byte_len(name) <= MAX_MODEL_BYTES && !has_control(name) {
        name
    } else {
        default
    }
}

fn holds_control(s: &[char]) -> (r: bool)
    ensures
        r == has_control(s@),
{
    let mut i: usize = 0;
    while i < s.len()
        invariant
            i <= s.len(),
            forall|j: int| 0 <= j < i ==> !is_control(#[trigger] s@[j]),
        decreases s.len() - i,
    {
        if control(s[i]) {
            assert(is_control(s@[i as int]));
            return true;
        }
        i += 1;
    }
    false
}

/// `value` without surrounding white space if that can name a model, else
/// `default`.
pub fn normalize_model(value: &str, default: &str) -> (r: String)
    ensures
        r@ == normalized_model(value@, default@),
{
    let chars = chars_of(value);
    let name = trimmed(chars.as_slice());
    if name.len() > 0 && byte_len_at_most(name, MAX_MODEL_BYTES) && !holds_control(name) {
        string_of(name)
    } else {
        default.to_owned()
    }
}

/// The name of a cleanup model.
pub fn normalize_cloud_model(value: &str) -> (r: String)
    ensures
        r@ == normalized_model(value@, DEFAULT_CLOUD_MODEL@),
{
    normalize_model(value, DEFAULT_CLOUD_MODEL)
}

/// The address as it is used: without surrounding white space, then without
/// slashes at the end.
pub open spec fn bare_address(value: Seq<char>) -> Seq<char> {
    strip_end(trim(value), CharClass::Only('/'))
}

/// The parts are those of a plain HTTP endpoint, without credentials, query or
/// fragment.
pub open spec fn is_endpoint(parts: UrlPartsView) -> bool {
    &&& parts.scheme == "http"@ || parts.scheme == "https"@
    &&& parts.username.len() == 0
    &&& parts.password is None
    &&& parts.query is None
    &&& parts.fragment is None
}

/// The address of an endpoint whose parts are `parts`, `default` if they are not
/// those of an endpoint.
pub open spec fn normalized_address(
    value: Seq<char>,
    parts: Option<UrlPartsView>,
    default: Seq<char>,
) -> Seq<char> {
    match parts {
        Some(parts) => if is_endpoint(parts) {
            bare_address(value)
        } else {
            default
        },
        None => default,
    }
}

fn bare(value: &str) -> (r: String)
    ensures
        r@ == bare_address(value@),
{
    let chars = chars_of(value);
    string_of(without_end(trimmed(chars.as_slice()), &CharClass::Only('/')))
}

/// The address of an endpoint whose parts are `parts`, `default` if they are not
/// those of an endpoint.
pub fn normalize_parsed_url(value: &str, parts: &Option<UrlParts>, default: &str) -> (r: String)
    ensures
        r@ == normalized_address(value@, url_view(*parts), default@),
{
    match parts {
        Some(url) => {
            if (same_text(url.scheme.as_str(), "http") || same_text(url.scheme.as_str(), "https"))
                && url.username.as_str().is_empty() && url.password.is_none()
                && url.query.is_none() && url.fragment.is_none() {
                bare(value)
            } else {
                default.to_owned()
            }
        },
        None => default.to_owned(),
    }
}

/// The address of an endpoint, `default` if `value` is none.
pub fn normalize_base_url(value: &str, default: &str) -> (r: String)
    ensures
        r@ == normalized_address(value@, parsed_url(bare_address(value@)), default@),
{
    let address = bare(value);
    let parts = parse_url(address.as_str());
    normalize_parsed_url(value, &parts, default)
}

/// The address of a cleanup endpoint.
pub fn normalize_cloud_base_url(value: &str) -> (r: String)
    ensures
        r@ == normalized_address(
            value@,
            parsed_url(bare_address(value@)),
            DEFAULT_CLOUD_BASE_URL@,
        ),
{
    normalize_base_url(value, DEFAULT_CLOUD_BASE_URL)
}

/// The settings within their bounds.
pub open spec fn bounded(config: RuntimeConfigView) -> RuntimeConfigView {
    RuntimeConfigView {
        asr_provider: config.asr_provider,
        asr_base_url: normalized_address(
            config.asr_base_url,
            parsed_url(bare_address(config.asr_base_url)),
            DEFAULT_ASR_BASE_URL@,
        ),
        asr_model: normalized_model(config.asr_model, DEFAULT_ASR_MODEL@),
        asr_api_key_required: config.asr_api_key_required,
        asr_timeout_ms: clamped(config.asr_timeout_ms, 1_000, 120_000),
        cloud_base_url: normalized_address(
            config.cloud_base_url,
            parsed_url(bare_address(config.cloud_base_url)),
            DEFAULT_CLOUD_BASE_URL@,
        ),
        cloud_model: normalized_model(config.cloud_model, DEFAULT_CLOUD_MODEL@),
        cloud_api_key_required: config.cloud_api_key_required,
        cloud_timeout_ms: clamped(config.cloud_timeout_ms, 500, 15_000),
        model_idle_minutes: clamped(config.model_idle_minutes, 1, 120),
        max_recording_seconds: clamped(config.max_recording_seconds, 5, 300),
    }
}

/// The settings within their bounds.
pub fn bounded_config(config: &RuntimeConfig) -> (r: RuntimeConfig)
    ensures
        r@ == bounded(config@),
{
    RuntimeConfig {
        asr_provider: config.asr_provider,
        asr_base_url: normalize_base_url(config.asr_base_url.as_str(), DEFAULT_ASR_BASE_URL),
        asr_model: normalize_model(config.asr_model.as_str(), DEFAULT_ASR_MODEL),
        asr_api_key_required: config.asr_api_key_required,
        asr_timeout_ms: clamp(config.asr_timeout_ms, 1_000, 120_000),
        cloud_base_url: normalize_cloud_base_url(config.cloud_base_url.as_str()),
        cloud_model: normalize_cloud_model(config.cloud_model.as_str()),
        cloud_api_key_required: config.cloud_api_key_required,
        cloud_timeout_ms: clamp(config.cloud_timeout_ms, 500, 15_000),
        model_idle_minutes: clamp(config.model_idle_minutes, 1, 120),
        max_recording_seconds: clamp(config.max_recording_seconds, 5, 300),
    }
}

/// Each term cut to its bound.
pub open spec fn cut_terms(terms: Seq<Seq<char>>) -> Seq<Seq<char>> {
    Seq::new(terms.len(), |i: int| head(terms[i], MAX_SESSION_TERM_CHARS as nat))
}

/// At most `n` entries of `s`.
pub open spec fn at_most(s: Seq<Seq<char>>, n: nat) -> Seq<Seq<char>> {
    if s.len() <= n {
        s
    } else {
        s.take(n as int)
    }
}

/// The options of a session within their bounds, with the domain vocabulary
/// behind that of the user.
pub open spec fn prepared(
    options: SessionOptionsView,
    domain: Seq<Seq<char>>,
) -> SessionOptionsView {
    SessionOptionsView {
        language: options.language,
        vocabulary: cut_terms(
            at_most(deduplicated(options.vocabulary + domain), MAX_SESSION_TERMS as nat),
        ),
        context_before: tail(options.context_before, MAX_CONTEXT_BEFORE as nat),
        context_after: head(options.context_after, MAX_CONTEXT_AFTER as nat),
        cloud_enabled: options.cloud_enabled,
    }
}

/// The options of a session within their bounds, with the domain vocabulary
/// behind that of the user.
pub fn prepare_options(options: SessionOptions, domain: Vec<String>) -> (r: SessionOptions)
    ensures
        r@ == prepared(options@, views(domain@)),
{
    let merged = merge_vocabulary(options.vocabulary, domain);
    let ghost kept = at_most(views(merged@), MAX_SESSION_TERMS as nat);
    let mut vocabulary: Vec<String> = Vec::new();
    let mut i: usize = 0;
    while i < merged.len() && i < MAX_SESSION_TERMS
        invariant
            i <= merged.len(),
            i <= MAX_SESSION_TERMS,
            i <= kept.len(),
            vocabulary@.len() == i,
            kept == at_most(views(merged@), MAX_SESSION_TERMS as nat),
            views(vocabulary@) == cut_terms(kept.take(i as int)),
        decreases merged.len() - i,
    {
        let ghost before = vocabulary@;
        vocabulary.push(head_chars(merged[i].as_str(), MAX_SESSION_TERM_CHARS));
        assert(kept[i as int] == merged@[i as int]@);
        assert(views(vocabulary@) =~= views(before).push(
            head(kept[i as int], MAX_SESSION_TERM_CHARS as nat),
        ));
        assert(views(vocabulary@) =~= cut_terms(kept.take(i + 1)));
        i += 1;
    }
    assert(kept.take(i as int) =~= kept);
    SessionOptions {
        language: options.language,
        vocabulary,
        context_before: tail_chars(options.context_before.as_str(), MAX_CONTEXT_BEFORE),
        context_after: head_chars(options.context_after.as_str(), MAX_CONTEXT_AFTER),
        cloud_enabled: options.cloud_enabled,
    }
}

/// Whatever is configured, times stay within their bounds, models have a
/// usable name, and an endpoint is the default or one that carries no
/// credentials.
pub proof fn settings_are_bounded(config: RuntimeConfigView)
    ensures
        ({
            let used = bounded(config);
            &&& 1_000 <= used.asr_timeout_ms <= 120_000
            &&& 500 <= used.cloud_timeout_ms <= 15_000
            &&& 1 <= used.model_idle_minutes <= 120
            &&& 5 <= used.max_recording_seconds <= 300
            &&& used.asr_model == DEFAULT_ASR_MODEL@ || (0 < used.asr_model.len() && byte_len(
                used.asr_model,
            ) <= MAX_MODEL_BYTES && !has_control(used.asr_model))
            &&& used.cloud_model == DEFAULT_CLOUD_MODEL@ || (0 < used.cloud_model.len()
                && byte_len(used.cloud_model) <= MAX_MODEL_BYTES && !has_control(
                used.cloud_model,
            ))
            &&& used.asr_base_url == DEFAULT_ASR_BASE_URL@ || (parsed_url(
                used.asr_base_url,
            ) matches Some(parts) && is_endpoint(parts))
            &&& used.cloud_base_url == DEFAULT_CLOUD_BASE_URL@ || (parsed_url(
                used.cloud_base_url,
            ) matches Some(parts) && is_endpoint(parts))
        }),
{
}

/// A model name that was accepted is accepted unchanged, and so is a default
/// without surrounding white space.
proof fn lemma_model_stays(value: Seq<char>, default: Seq<char>)
    requires
        trim(default) == default,
    ensures
        normalized_model(normalized_model(value, default), default) == normalized_model(
            value,
            default,
        ),
{
    trimming_is_idempotent(value);
}

proof fn lemma_address_stays(value: Seq<char>, default: Seq<char>)
    requires
        bare_address(default) == default,
        trim(bare_address(value)) == bare_address(value),
    ensures
        ({
            let once = normalized_address(value, parsed_url(bare_address(value)), default);
            normalized_address(once, parsed_url(bare_address(once)), default) == once
        }),
{
    lemma_strip_twice(trim(value), CharClass::Only('/'));
}

proof fn lemma_strip_twice(s: Seq<char>, class: CharClass)
    ensures
        strip_end(strip_end(s, class), class) == strip_end(s, class),
    decreases s.len(),
{
    if s.len() > 0 && class.has(s.last()) {
        lemma_strip_twice(s.drop_last(), class);
    }
}

/// Configuring the settings in use again changes nothing, unless an address has
/// white space in front of the slashes at its end.
pub proof fn bounding_is_idempotent(config: RuntimeConfigView)
    requires
        trim(bare_address(config.asr_base_url)) == bare_address(config.asr_base_url),
        trim(bare_address(config.cloud_base_url)) == bare_address(config.cloud_base_url),
    ensures
        bounded(bounded(config)) == bounded(config),
{
    reveal_strlit("https://generativelanguage.googleapis.com/v1beta/openai");
    reveal_strlit("gemini-3.5-flash-lite");
    reveal_strlit("https://dashscope.aliyuncs.com/compatible-mode/v1");
    reveal_strlit("qwen3-asr-flash");
    lemma_model_stays(config.asr_model, DEFAULT_ASR_MODEL@);
    lemma_model_stays(config.cloud_model, DEFAULT_CLOUD_MODEL@);
    lemma_address_stays(config.asr_base_url, DEFAULT_ASR_BASE_URL@);
    lemma_address_stays(config.cloud_base_url, DEFAULT_CLOUD_BASE_URL@);
}

/// However much a session brings along, little of it is kept: 128 terms of 80
/// characters, 256 characters in front of the cursor and 64 behind it.
pub proof fn session_options_are_bounded(options: SessionOptionsView, domain: Seq<Seq<char>>)
    ensures
        ({
            let kept = prepared(options, domain);
            &&& kept.vocabulary.len() <= 128
            &&& forall|i: int|
                0 <= i < kept.vocabulary.len() ==> (#[trigger] kept.vocabulary[i]).len() <= 80
            &&& kept.context_before.len() <= 256
            &&& kept.context_after.len() <= 64
        }),
{
}

/// What is kept of the context is what stands next to the cursor.
pub proof fn context_next_to_the_cursor_is_kept(
    options: SessionOptionsView,
    domain: Seq<Seq<char>>,
)
    ensures
        prepared(options, domain).context_before.is_suffix_of(options.context_before),
        prepared(options, domain).context_after.is_prefix_of(options.context_after),
{
    let before = prepared(options, domain).context_before;
    assert(before =~= options.context_before.skip(options.context_before.len() - before.len()));
}

/// A time within its bounds is used as it is configured, and any other is the
/// nearest bound; nothing else about the providers changes.
pub proof fn settings_within_bounds_are_kept(config: RuntimeConfigView)
    ensures
        ({
            let used = bounded(config);
            &&& used.asr_timeout_ms == (if config.asr_timeout_ms > 120_000 {
                120_000
            } else if config.asr_timeout_ms > 1_000 {
                config.asr_timeout_ms
            } else {
                1_000
            })
            &&& used.cloud_timeout_ms == (if config.cloud_timeout_ms > 15_000 {
                15_000
            } else if config.cloud_timeout_ms > 500 {
                config.cloud_timeout_ms
            } else {
                500
            })
            &&& used.model_idle_minutes == (if config.model_idle_minutes > 120 {
                120
            } else if config.model_idle_minutes > 1 {
                config.model_idle_minutes
            } else {
                1
            })
            &&& used.max_recording_seconds == (if config.max_recording_seconds > 300 {
                300
            } else if config.max_recording_seconds > 5 {
                config.max_recording_seconds
            } else {
                5
            })
            &&& used.asr_provider == config.asr_provider
            &&& used.asr_api_key_required == config.asr_api_key_required
            &&& used.cloud_api_key_required == config.cloud_api_key_required
        }),
{
}

/// White space around the name of a model does not matter. A name of up to 256
/// bytes without control characters is used, any other is not.
pub proof fn usable_model_names_are_kept(
    before: Seq<char>,
    name: Seq<char>,
    after: Seq<char>,
    default: Seq<char>,
)
    requires
        forall|i: int| 0 <= i < before.len() ==> is_white_space(#[trigger] before[i]),
        forall|i: int| 0 <= i < after.len() ==> is_white_space(#[trigger] after[i]),
        name.len() > 0,
        !is_white_space(name[0]),
        !is_white_space(name.last()),
    ensures
        ({
            let usable = encode_utf8(name).len() <= 256 && forall|i: int|
                0 <= i < name.len() ==> 0x20 <= (#[trigger] name[i]) as u32 && !(0x7F
                    <= name[i] as u32 <= 0x9F);
            normalized_model(before + name + after, default) == (if usable {
                name
            } else {
                default
            })
        }),
        normalized_model(before, default) == default,
{
    trimming_takes_off_white_space_alone(before, name, after);
    bytes_are_counted_as_in_utf8(name);
    lemma_blank(before);
    if has_control(name) {
        let i = choose|i: int| 0 <= i < name.len() && is_control(#[trigger] name[i]);
        assert(name[i] as u32 <= 0x1F || 0x7F <= name[i] as u32 <= 0x9F);
    } else {
        assert forall|i: int| 0 <= i < name.len() implies 0x20 <= (#[trigger] name[i]) as u32 && !(
        0x7F <= name[i] as u32 <= 0x9F) by {
            assert(!is_control(name[i]));
        }
    }
}

/// The address of a plain HTTP endpoint is used, without white space around it and
/// slashes at its end; one with another scheme, credentials, a query or a fragment
/// is not.
pub proof fn plain_endpoints_are_kept(
    before: Seq<char>,
    base: Seq<char>,
    slashes: nat,
    after: Seq<char>,
    parts: UrlPartsView,
    default: Seq<char>,
)
    requires
        forall|i: int| 0 <= i < before.len() ==> is_white_space(#[trigger] before[i]),
        forall|i: int| 0 <= i < after.len() ==> is_white_space(#[trigger] after[i]),
        base.len() > 0,
        !is_white_space(base[0]),
        !is_white_space(base.last()),
        base.last() != '/',
    ensures
        ({
            let value = before + (base + Seq::new(slashes, |i: int| '/')) + after;
            let plain = (parts.scheme == "http"@ || parts.scheme == "https"@)
                && parts.username.len() == 0 && parts.password is None && parts.query is None
                && parts.fragment is None;
            &&& bare_address(value) == base
            &&& plain ==> normalized_address(value, Some(parts), default) == base
            &&& !plain ==> normalized_address(value, Some(parts), default) == default
            &&& normalized_address(value, None, default) == default
        }),
{
    let ends = Seq::new(slashes, |i: int| '/');
    let inner = base + ends;
    assert(inner[0] == base[0]);
    assert(inner.last() == (if slashes > 0 {
        '/'
    } else {
        base.last()
    }));
    trimming_takes_off_white_space_alone(before, inner, after);
    stripping_takes_off_one_character_alone(base, '/', slashes);
}

/// What fits is kept as it is: the merged vocabulary up to 128 terms, each up to 80
/// characters, and the context up to 256 characters in front of the cursor and 64
/// behind it. The language and the consent to cleanup are never changed.
pub proof fn session_options_that_fit_are_kept(
    options: SessionOptionsView,
    domain: Seq<Seq<char>>,
)
    ensures
        ({
            let kept = prepared(options, domain);
            let merged = deduplicated(options.vocabulary + domain);
            &&& kept.language == options.language
            &&& kept.cloud_enabled == options.cloud_enabled
            &&& kept.vocabulary.len() == (if merged.len() > 128 {
                128
            } else {
                merged.len()
            })
            &&& forall|i: int|
                #![trigger kept.vocabulary[i]]
                0 <= i < kept.vocabulary.len() ==> {
                    &&& kept.vocabulary[i].is_prefix_of(merged[i])
                    &&& merged[i].len() <= 80 ==> kept.vocabulary[i] == merged[i]
                    &&& merged[i].len() > 80 ==> kept.vocabulary[i].len() == 80
                }
            &&& options.context_before.len() <= 256 ==> kept.context_before
                == options.context_before
            &&& options.context_before.len() > 256 ==> kept.context_before.len() == 256
            &&& options.context_after.len() <= 64 ==> kept.context_after == options.context_after
            &&& options.context_after.len() > 64 ==> kept.context_after.len() == 64
        }),
{
    let kept = prepared(options, domain);
    let merged = deduplicated(options.vocabulary + domain);
    assert forall|i: int| #![trigger kept.vocabulary[i]] 0 <= i < kept.vocabulary.len() implies
        kept.vocabulary[i] == head(merged[i], 80) by {}
}

} // verus!
