//! Where the keys of the services are looked for and kept. Environment variables
//! come before the secret store; the two services never share an entry.
use crate::text::{is_blank, trim, trimmed_text};
use vstd::prelude::*;

verus! {

/// Name of the service in the secret store.
pub const SERVICE: &'static str = "io.github.ddy314.NatsuTypeless";

/// Entry of the cleanup key.
pub const ACCOUNT: &'static str = "openai-compatible-api-key";

/// Entry under which the cleanup key used to be kept.
pub const LEGACY_ACCOUNT: &'static str = "gemini-api-key";

/// Entry of the recognition key.
pub const ASR_ACCOUNT: &'static str = "asr-api-key";

/// A place where a key may be.
#[derive(Debug)]
pub enum KeySource {
    /// An environment variable.
    Variable(String),
    /// An entry of the secret store.
    Secret(String),
}

/// The content of a [`KeySource`].
pub enum KeySourceView {
    Variable(Seq<char>),
    Secret(Seq<char>),
}

impl View for KeySource {
    type V = KeySourceView;

    open spec fn view(&self) -> KeySourceView {
        match *self {
            KeySource::Variable(name) => KeySourceView::Variable(name@),
            KeySource::Secret(account) => KeySourceView::Secret(account@),
        }
    }
}

/// What a source answered.
#[derive(Debug)]
pub enum KeyAnswer {
    /// It holds this.
    Value(String),
    /// It holds nothing.
    Missing,
    /// It could not be opened.
    Unavailable,
}

/// Why no key was found.
#[derive(Debug, Clone, Copy, PartialEq, Eq, Structural)]
pub enum SecretError {
    /// The secret store could not be opened.
    Unavailable,
    /// No source holds the cleanup key.
    CloudKeyMissing,
    /// No source holds the recognition key.
    AsrKeyMissing,
    /// An empty key was entered.
    EmptyKey,
}

impl SecretError {
    /// The message shown for the error.
    pub open spec fn text(self) -> Seq<char> {
        match self {
            SecretError::Unavailable => "initialize Secret Service entry"@,
            SecretError::CloudKeyMissing =>
                "cloud API key is not configured; run `natsu-typelessctl key set`"@,
            SecretError::AsrKeyMissing =>
                "ASR API key is not configured; run `natsu-typelessctl asr-key set`"@,
            SecretError::EmptyKey => "key was empty"@,
        }
    }

    /// The message shown for the error.
    pub fn message(self) -> (r: String)
        ensures
            r@ == self.text(),
    {
        match self {
            SecretError::Unavailable => "initialize Secret Service entry".to_owned(),
            SecretError::CloudKeyMissing => {
                "cloud API key is not configured; run `natsu-typelessctl key set`".to_owned()
            },
            SecretError::AsrKeyMissing => {
                "ASR API key is not configured; run `natsu-typelessctl asr-key set`".to_owned()
            },
            SecretError::EmptyKey => "key was empty".to_owned(),
        }
    }
}

/// Where the search for a key stands.
#[derive(Debug)]
pub enum KeyStep {
    /// This source is to be asked.
    Ask(KeySource),
    Found(String),
    Failed(SecretError),
}

/// The content of a [`KeyStep`].
pub enum KeyStepView {
    Ask(KeySourceView),
    Found(Seq<char>),
    Failed(SecretError),
}

impl View for KeyStep {
    type V = KeyStepView;

    open spec fn view(&self) -> KeyStepView {
        match *self {
            KeyStep::Ask(source) => KeyStepView::Ask(source@),
            KeyStep::Found(key) => KeyStepView::Found(key@),
            KeyStep::Failed(error) => KeyStepView::Failed(error),
        }
    }
}

/// The content of each source.
pub open spec fn source_views(sources: Seq<KeySource>) -> Seq<KeySourceView> {
    Seq::new(sources.len(), |i: int| sources[i]@)
}

/// The answer of this source settles the search. A variable counts only if
/// something is in it.
pub open spec fn settles(source: KeySourceView, answer: KeyAnswer) -> bool {
    match answer {
        KeyAnswer::Value(value) => source is Secret || trim(value@).len() > 0,
        KeyAnswer::Missing => false,
        KeyAnswer::Unavailable => source is Secret,
    }
}

/// Where a search among `sources` stands after `answers`, one for each source
/// asked so far.
pub open spec fn search(
    sources: Seq<KeySourceView>,
    answers: Seq<KeyAnswer>,
    missing: SecretError,
) -> KeyStepView
    decreases sources.len(),
{
    if sources.len() == 0 {
        KeyStepView::Failed(missing)
    } else if answers.len() == 0 {
        KeyStepView::Ask(sources[0])
    } else if settles(sources[0], answers[0]) {
        match answers[0] {
            KeyAnswer::Value(value) => KeyStepView::Found(value@),
            _ => KeyStepView::Failed(SecretError::Unavailable),
        }
    } else {
        search(sources.drop_first(), answers.drop_first(), missing)
    }
}

/// The sources of the cleanup key, in order.
pub open spec fn cloud_sources() -> Seq<KeySourceView> {
    seq![
        KeySourceView::Variable("OPENAI_API_KEY"@),
        KeySourceView::Variable("GEMINI_API_KEY"@),
        KeySourceView::Secret(ACCOUNT@),
        KeySourceView::Secret(LEGACY_ACCOUNT@),
    ]
}

/// The sources of the recognition key, in order.
pub open spec fn asr_sources() -> Seq<KeySourceView> {
    seq![
        KeySourceView::Variable("NATSU_TYPELESS_ASR_API_KEY"@),
        KeySourceView::Variable("DASHSCOPE_API_KEY"@),
        KeySourceView::Secret(ASR_ACCOUNT@),
    ]
}

fn search_step(sources: Vec<KeySource>, answers: &[KeyAnswer], missing: SecretError) -> (r: KeyStep)
    ensures
        r@ == search(source_views(sources@), answers@, missing),
{
    let ghost all = source_views(sources@);
    let mut rest = sources;
    let mut i: usize = 0;
    assert(answers@.skip(0) =~= answers@);
    while rest.len() > 0
        invariant
            all == source_views(sources@),
            i <= answers.len(),
            search(all, answers@, missing) == search(
                source_views(rest@),
                answers@.skip(i as int),
                missing,
            ),
        decreases rest@.len(),
    {
        let ghost before = source_views(rest@);
        let source = rest.remove(0);
        assert(source_views(rest@) =~= before.drop_first());
        if i == answers.len() {
            return KeyStep::Ask(source);
        }
        assert(answers@.skip(i as int).drop_first() =~= answers@.skip(i + 1));
        let secret = match source {
            KeySource::Secret(_) => true,
            KeySource::Variable(_) => false,
        };
        match &answers[i] {
            KeyAnswer::Value(value) => {
                if secret || !is_blank(value.as_str()) {
                    return KeyStep::Found(value.clone());
                }
            },
            KeyAnswer::Missing => {},
            KeyAnswer::Unavailable => {
                if secret {
                    return KeyStep::Failed(SecretError::Unavailable);
                }
            },
        }
        i += 1;
    }
    KeyStep::Failed(missing)
}

/// Where the search for the cleanup key stands after `answers`.
pub fn get_cloud_api_key(answers: &[KeyAnswer]) -> (r: KeyStep)
    ensures
        r@ == search(cloud_sources(), answers@, SecretError::CloudKeyMissing),
{
    let mut sources: Vec<KeySource> = Vec::new();
    sources.push(KeySource::Variable("OPENAI_API_KEY".to_owned()));
    sources.push(KeySource::Variable("GEMINI_API_KEY".to_owned()));
    sources.push(KeySource::Secret(ACCOUNT.to_owned()));
    sources.push(KeySource::Secret(LEGACY_ACCOUNT.to_owned()));
    assert(source_views(sources@) =~= cloud_sources());
    search_step(sources, answers, SecretError::CloudKeyMissing)
}

/// Where the search for the recognition key stands after `answers`.
pub fn get_asr_api_key(answers: &[KeyAnswer]) -> (r: KeyStep)
    ensures
        r@ == search(asr_sources(), answers@, SecretError::AsrKeyMissing),
{
    let mut sources: Vec<KeySource> = Vec::new();
    sources.push(KeySource::Variable("NATSU_TYPELESS_ASR_API_KEY".to_owned()));
    sources.push(KeySource::Variable("DASHSCOPE_API_KEY".to_owned()));
    sources.push(KeySource::Secret(ASR_ACCOUNT.to_owned()));
    assert(source_views(sources@) =~= asr_sources());
    search_step(sources, answers, SecretError::AsrKeyMissing)
}

fn found(step: &KeyStep) -> (r: Option<bool>)
    ensures
        r == (match step@ {
            KeyStepView::Ask(_) => None,
            KeyStepView::Found(_) => Some(true),
            KeyStepView::Failed(_) => Some(false),
        }),
{
    match step {
        KeyStep::Ask(_) => None,
        KeyStep::Found(_) => Some(true),
        KeyStep::Failed(_) => Some(false),
    }
}

/// Whether there is a cleanup key; not known while a source is still to be
/// asked.
pub fn has_cloud_api_key(answers: &[KeyAnswer]) -> (r: Option<bool>)
    ensures
        r == (match search(cloud_sources(), answers@, SecretError::CloudKeyMissing) {
            KeyStepView::Ask(_) => None,
            KeyStepView::Found(_) => Some(true),
            KeyStepView::Failed(_) => Some(false),
        }),
{
    let step = get_cloud_api_key(answers);
    found(&step)
}

/// Whether there is a recognition key; not known while a source is still to be
/// asked.
pub fn has_asr_api_key(answers: &[KeyAnswer]) -> (r: Option<bool>)
    ensures
        r == (match search(asr_sources(), answers@, SecretError::AsrKeyMissing) {
            KeyStepView::Ask(_) => None,
            KeyStepView::Found(_) => Some(true),
            KeyStepView::Failed(_) => Some(false),
        }),
{
    let step = get_asr_api_key(answers);
    found(&step)
}

/// A secret to store.
#[derive(Debug)]
pub struct SecretWrite {
    pub account: String,
    pub secret: String,
}

/// The cleanup key as it is stored: without surrounding white space.
pub fn set_cloud_api_key(value: &str) -> (r: SecretWrite)
    ensures
        r.account@ == ACCOUNT@,
        r.secret@ == trim(value@),
{
    SecretWrite { account: ACCOUNT.to_owned(), secret: trimmed_text(value) }
}

/// The recognition key as it is stored: without surrounding white space.
pub fn set_asr_api_key(value: &str) -> (r: SecretWrite)
    ensures
        r.account@ == ASR_ACCOUNT@,
        r.secret@ == trim(value@),
{
    SecretWrite { account: ASR_ACCOUNT.to_owned(), secret: trimmed_text(value) }
}

/// The entries to delete so that no cleanup key is left.
pub fn clear_cloud_api_key() -> (r: Vec<String>)
    ensures
        r@.len() == 2,
        r@[0]@ == ACCOUNT@,
        r@[1]@ == LEGACY_ACCOUNT@,
{
    let mut accounts: Vec<String> = Vec::new();
    accounts.push(ACCOUNT.to_owned());
    accounts.push(LEGACY_ACCOUNT.to_owned());
    accounts
}

/// The entries to delete so that no recognition key is left.
pub fn clear_asr_api_key() -> (r: Vec<String>)
    ensures
        r@.len() == 1,
        r@[0]@ == ASR_ACCOUNT@,
{
    let mut accounts: Vec<String> = Vec::new();
    accounts.push(ASR_ACCOUNT.to_owned());
    accounts
}

/// Refuses a key that was entered with nothing in it.
pub fn check_entered_key(value: &str) -> (r: Result<(), SecretError>)
    ensures
        match r {
            Ok(_) => trim(value@).len() > 0,
            Err(error) => error == SecretError::EmptyKey && trim(value@).len() == 0,
        },
{
    if is_blank(value) {
        return Err(SecretError::EmptyKey);
    }
    Ok(())
}

/// A search asks no source twice and ends: after an answer of every source it is
/// settled.
pub proof fn searches_end(
    sources: Seq<KeySourceView>,
    answers: Seq<KeyAnswer>,
    missing: SecretError,
)
    requires
        answers.len() >= sources.len(),
    ensures
        !(search(sources, answers, missing) is Ask),
    decreases sources.len(),
{
    if sources.len() > 0 && !settles(sources[0], answers[0]) {
        searches_end(sources.drop_first(), answers.drop_first(), missing);
    }
}

/// The answer that a search ends with is final: further answers do not matter.
pub proof fn settled_searches_stay_settled(
    sources: Seq<KeySourceView>,
    answers: Seq<KeyAnswer>,
    more: Seq<KeyAnswer>,
    missing: SecretError,
)
    requires
        !(search(sources, answers, missing) is Ask),
    ensures
        search(sources, answers + more, missing) == search(sources, answers, missing),
    decreases sources.len(),
{
    if sources.len() > 0 && answers.len() > 0 && !settles(sources[0], answers[0]) {
        settled_searches_stay_settled(
            sources.drop_first(),
            answers.drop_first(),
            more,
            missing,
        );
        assert((answers + more).drop_first() =~= answers.drop_first() + more);
    }
}

/// Something is in the answer.
pub open spec fn is_filled(answer: KeyAnswer) -> bool {
    answer matches KeyAnswer::Value(value) && trim(value@).len() > 0
}

/// What the answer holds.
pub open spec fn held(answer: KeyAnswer) -> Seq<char> {
    match answer {
        KeyAnswer::Value(value) => value@,
        _ => Seq::empty(),
    }
}

/// A filled environment variable overrides the secret store, and the first of two
/// overrides the second.
pub proof fn environment_overrides_the_store(answers: Seq<KeyAnswer>, missing: SecretError)
    requires
        answers.len() > 0 && is_filled(answers[0]) || answers.len() > 1 && is_filled(answers[1]),
    ensures
        ({
            let key = if is_filled(answers[0]) {
                held(answers[0])
            } else {
                held(answers[1])
            };
            &&& search(cloud_sources(), answers, missing) == KeyStepView::Found(key)
            &&& search(asr_sources(), answers, missing) == KeyStepView::Found(key)
        }),
{
    reveal_with_fuel(search, 3);
}

/// A stored key is found again, without its surrounding white space, unless a
/// filled environment variable overrides it.
pub proof fn a_stored_key_is_found_again(
    value: Seq<char>,
    stored: SecretWrite,
    first: KeyAnswer,
    second: KeyAnswer,
)
    requires
        stored.secret@ == trim(value),
        !is_filled(first),
        !is_filled(second),
    ensures
        ({
            let answers = seq![first, second, KeyAnswer::Value(stored.secret)];
            &&& stored.account@ == ACCOUNT@ ==> search(
                cloud_sources(),
                answers.take(2),
                SecretError::CloudKeyMissing,
            ) == KeyStepView::Ask(KeySourceView::Secret(stored.account@))
            &&& stored.account@ == ASR_ACCOUNT@ ==> search(
                asr_sources(),
                answers.take(2),
                SecretError::AsrKeyMissing,
            ) == KeyStepView::Ask(KeySourceView::Secret(stored.account@))
            &&& search(cloud_sources(), answers, SecretError::CloudKeyMissing)
                == KeyStepView::Found(trim(value))
            &&& search(asr_sources(), answers, SecretError::AsrKeyMissing) == KeyStepView::Found(
                trim(value),
            )
        }),
{
    reveal_with_fuel(search, 4);
}

/// The two services keep their keys apart.
pub proof fn keys_are_kept_apart()
    ensures
        ASR_ACCOUNT@ != ACCOUNT@,
        ASR_ACCOUNT@ != LEGACY_ACCOUNT@,
{
    reveal_strlit("asr-api-key");
    reveal_strlit("openai-compatible-api-key");
    reveal_strlit("gemini-api-key");
    assert(ASR_ACCOUNT@.len() != ACCOUNT@.len());
    assert(ASR_ACCOUNT@.len() != LEGACY_ACCOUNT@.len());
}

/// The sources are asked one after another for as long as none answers: an empty
/// variable counts for nothing, and neither does an entry that is not there.
pub proof fn sources_are_asked_in_turn(
    sources: Seq<KeySourceView>,
    answers: Seq<KeyAnswer>,
    missing: SecretError,
)
    requires
        answers.len() <= sources.len(),
        forall|i: int|
            #![trigger answers[i]]
            0 <= i < answers.len() ==> answers[i] is Missing || (sources[i] is Variable
                && !is_filled(answers[i])),
    ensures
        answers.len() < sources.len() ==> search(sources, answers, missing) == KeyStepView::Ask(
            sources[answers.len() as int],
        ),
        answers.len() == sources.len() ==> search(sources, answers, missing)
            == KeyStepView::Failed(missing),
    decreases answers.len(),
{
    if answers.len() > 0 {
        let more = answers.drop_first();
        let rest = sources.drop_first();
        assert(answers[0] is Missing || (sources[0] is Variable && !is_filled(answers[0])));
        assert forall|i: int| #![trigger more[i]] 0 <= i < more.len() implies more[i] is Missing
            || (rest[i] is Variable && !is_filled(more[i])) by {
            assert(more[i] == answers[i + 1]);
            assert(rest[i] == sources[i + 1]);
        }
        sources_are_asked_in_turn(rest, more, missing);
    }
}

/// The first source that answers settles the search: a filled variable or a stored
/// entry is the key, as it is, and a store that cannot be opened is an error.
pub proof fn the_first_answer_settles_the_search(
    sources: Seq<KeySourceView>,
    answers: Seq<KeyAnswer>,
    missing: SecretError,
    k: int,
)
    requires
        0 <= k < answers.len(),
        answers.len() <= sources.len(),
        forall|i: int|
            #![trigger answers[i]]
            0 <= i < k ==> answers[i] is Missing || (sources[i] is Variable && !is_filled(
                answers[i],
            )),
    ensures
        answers[k] is Value && (is_filled(answers[k]) || sources[k] is Secret) ==> search(
            sources,
            answers,
            missing,
        ) == KeyStepView::Found(held(answers[k])),
        answers[k] is Unavailable && sources[k] is Secret ==> search(sources, answers, missing)
            == KeyStepView::Failed(SecretError::Unavailable),
    decreases k,
{
    if k > 0 {
        let more = answers.drop_first();
        let rest = sources.drop_first();
        assert(answers[0] is Missing || (sources[0] is Variable && !is_filled(answers[0])));
        assert forall|i: int| #![trigger more[i]] 0 <= i < k - 1 implies more[i] is Missing || (
        rest[i] is Variable && !is_filled(more[i])) by {
            assert(more[i] == answers[i + 1]);
            assert(rest[i] == sources[i + 1]);
        }
        the_first_answer_settles_the_search(rest, more, missing, k - 1);
        assert(more[k - 1] == answers[k]);
        assert(rest[k - 1] == sources[k]);
    }
}

} // verus!
