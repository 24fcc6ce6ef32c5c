//! What all HTTP endpoints have in common: addresses, authorization and the
//! shape of their error reports.
use crate::text::{
    a_text_without_separators_is_one_piece, chars_of, concat, first_chars, head, is_blank,
    is_white_space, join, joined, lemma_blank, lemma_filter_one, option_view, piece_views, pieces,
    split, splitting_at_a_separator, string_of, strip_end, stripping_takes_off_one_character_alone,
    trim, views, without_end, CharClass,
};
use vstd::prelude::*;

verus! {

/// Characters of an error report that are kept.
pub const MAX_REPORT_CHARS: usize = 240;

/// The words of `s`, separated by any white space.
pub open spec fn words(s: Seq<char>) -> Seq<Seq<char>> {
    split(s, CharClass::WhiteSpace).filter(is_word())
}

/// A piece of text with something in it.
pub open spec fn is_word() -> spec_fn(Seq<char>) -> bool {
    |piece: Seq<char>| piece.len() > 0
}

/// The words of `s` on one line, cut to the length of a report.
pub open spec fn compacted(s: Seq<char>) -> Seq<char> {
    head(joined(words(s), " "@), MAX_REPORT_CHARS as nat)
}

/// `path` under `base`, whatever slashes `base` ends with.
pub open spec fn address(base: Seq<char>, path: Seq<char>) -> Seq<char> {
    strip_end(base, CharClass::Only('/')) + path
}

/// The key to authorize with: none if there is none or nothing is in it.
pub open spec fn usable_key(key: Option<Seq<char>>) -> Option<Seq<char>> {
    match key {
        Some(key) => if trim(key).len() > 0 {
            Some(key)
        } else {
            None
        },
        None => None,
    }
}

/// What is reported of an answer that is no success.
pub open spec fn refusal(service: Seq<char>, status: Seq<char>, body: Seq<char>) -> Seq<char> {
    service + " endpoint returned "@ + status + ": "@ + compacted(body)
}

/// The words of `value` on one line, cut to the length of a report.
pub fn compact_error(value: &str) -> (r: String)
    ensures
        r@ == compacted(value@),
{
    let chars = chars_of(value);
    let parts = pieces(chars.as_slice(), &CharClass::WhiteSpace);
    let ghost written = piece_views(parts@);
    let mut kept: Vec<String> = Vec::new();
    let mut i: usize = 0;
    proof {
        reveal(Seq::filter);
        assert(written.take(0) =~= Seq::empty());
        assert(views(kept@) =~= written.take(0).filter(is_word()));
    }
    while i < parts.len()
        invariant
            i <= parts.len(),
            written == piece_views(parts@),
            views(kept@) == written.take(i as int).filter(is_word()),
        decreases parts.len() - i,
    {
        let ghost before = kept@;
        proof {
            reveal(Seq::filter);
            assert(written.take(i + 1).drop_last() =~= written.take(i as int));
            assert(written.take(i + 1).last() == parts@[i as int]@);
        }
        if parts[i].len() > 0 {
            kept.push(string_of(parts[i].as_slice()));
            assert(views(kept@) =~= views(before).push(parts@[i as int]@));
        }
        i += 1;
    }
    assert(written.take(i as int) =~= written);
    let line = join(kept.as_slice(), " ");
    let line_chars = chars_of(line.as_str());
    string_of(first_chars(line_chars.as_slice(), MAX_REPORT_CHARS))
}

/// `path` under `base`, whatever slashes `base` ends with.
pub fn endpoint_url(base: &str, path: &str) -> (r: String)
    ensures
        r@ == address(base@, path@),
{
    let chars = chars_of(base);
    let root = string_of(without_end(chars.as_slice(), &CharClass::Only('/')));
    concat(root.as_str(), path)
}

/// The key to authorize with: none if there is none or nothing is in it.
pub fn authorized(api_key: &Option<String>) -> (r: Option<String>)
    ensures
        option_view(r) == usable_key(option_view(*api_key)),
{
    match api_key {
        Some(key) => if is_blank(key.as_str()) {
            None
        } else {
            Some(key.clone())
        },
        None => None,
    }
}

/// What is reported of an answer that is no success.
pub fn endpoint_error(service: &str, status: &str, body: &str) -> (r: String)
    ensures
        r@ == refusal(service@, status@, body@),
{
    let start = concat(service, " endpoint returned ");
    let with_status = concat(start.as_str(), status);
    let with_colon = concat(with_status.as_str(), ": ");
    let report = compact_error(body);
    concat(with_colon.as_str(), report.as_str())
}

/// A report never grows beyond its bound, whatever the endpoint answered.
pub proof fn reports_are_bounded(body: Seq<char>)
    ensures
        compacted(body).len() <= MAX_REPORT_CHARS,
{
}

/// White space only separates words: those of two texts with white space between
/// them are those of the one and then those of the other, and text without any is
/// one word.
pub proof fn words_stand_between_white_space(a: Seq<char>, between: char, b: Seq<char>)
    requires
        is_white_space(between),
    ensures
        words(a.push(between) + b) == words(a) + words(b),
        (forall|i: int| 0 <= i < a.len() ==> !is_white_space(#[trigger] a[i])) ==> words(a) == (
        if a.len() > 0 {
            seq![a]
        } else {
            Seq::empty()
        }),
{
    let class = CharClass::WhiteSpace;
    splitting_at_a_separator(a, between, b, class);
    Seq::filter_distributes_over_add(split(a, class), split(b, class), is_word());
    if forall|i: int| 0 <= i < a.len() ==> !is_white_space(#[trigger] a[i]) {
        assert forall|i: int| 0 <= i < a.len() implies !class.has(#[trigger] a[i]) by {}
        a_text_without_separators_is_one_piece(a, class);
        lemma_filter_one(a, is_word());
    }
}

/// A report holds the words of the answer with one space between them, and no
/// more of them than fit.
pub proof fn reports_hold_the_words(body: Seq<char>)
    ensures
        ({
            let line = joined(words(body), seq![' ']);
            &&& line.len() <= 240 ==> compacted(body) == line
            &&& line.len() > 240 ==> compacted(body).len() == 240 && compacted(
                body,
            ).is_prefix_of(line)
        }),
{
    reveal_strlit(" ");
    assert(" "@ =~= seq![' ']);
}

/// Slashes at the end of a base do not matter, and nothing else of it is lost.
pub proof fn addresses_have_one_slash(base: Seq<char>, path: Seq<char>, slashes: nat)
    requires
        base.len() == 0 || base.last() != '/',
    ensures
        address(base + Seq::new(slashes, |i: int| '/'), path) == base + path,
        address(base, path) == base + path,
{
    stripping_takes_off_one_character_alone(base, '/', slashes);
    stripping_takes_off_one_character_alone(base, '/', 0);
    assert(base + Seq::new(0, |i: int| '/') =~= base);
}

/// Every key with something in it is used as it is; any other is none.
pub proof fn filled_keys_are_used_unchanged(key: Seq<char>)
    ensures
        (exists|i: int| 0 <= i < key.len() && !is_white_space(#[trigger] key[i]))
            ==> usable_key(Some(key)) == Some(key),
        (forall|i: int| 0 <= i < key.len() ==> is_white_space(#[trigger] key[i])) ==> usable_key(
            Some(key),
        ) is None,
        usable_key(None) is None,
{
    lemma_blank(key);
}

/// A refusal names the service and the status, and ends with the report.
pub proof fn refusals_name_service_and_status(
    service: Seq<char>,
    status: Seq<char>,
    body: Seq<char>,
)
    ensures
        (service + " endpoint returned "@ + status + ": "@).is_prefix_of(
            refusal(service, status, body),
        ),
        compacted(body).is_suffix_of(refusal(service, status, body)),
        refusal(service, status, body).len() == (service + " endpoint returned "@ + status
            + ": "@).len() + compacted(body).len(),
{
    let start = service + " endpoint returned "@ + status + ": "@;
    let whole = refusal(service, status, body);
    assert(whole.take(start.len() as int) =~= start);
    assert(whole.skip(start.len() as int) =~= compacted(body));
}

} // verus!
