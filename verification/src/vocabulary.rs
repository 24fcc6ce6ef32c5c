//! Domain vocabulary: hotword lists, entity rules that are scored against the
//! whole utterance, and merging without repetition.
use crate::files::{
    byte_order, byte_views, bytes_at_most, ends_with, has_suffix, join_path, joined_path,
    same_bytes, sort_names,
};
use crate::text::{
    a_text_without_separators_is_one_piece, all_ascii, append, ascii_alphanumeric, chars_of,
    contains, first_chars, head, includes, is_ascii_alphanumeric, is_ascii_lower, is_ascii_upper,
    lemma_filter_one, lemma_lower_char, lower_char, lowercase, lowered, occurs_at, option_view,
    piece_views, pieces, split, splitting_at_a_separator, splitting_joined_text, stands_at,
    string_of, trim, trimmed, views, CharClass,
};
use vstd::hash_set::StringHashSet;
use vstd::prelude::*;
use vstd::slice::slice_subrange;
use vstd::utf8::encode_utf8;

verus! {

/// At most this many files of one directory are read.
pub const MAX_VOCABULARY_FILES: usize = 32;

/// Longer files are passed over.
pub const MAX_FILE_BYTES: u64 = 262_144;

/// Terms are cut to this many characters.
pub const MAX_TERM_CHARS: usize = 80;

/// Each element trimmed.
pub open spec fn all_trimmed(lines: Seq<Seq<char>>) -> Seq<Seq<char>> {
    Seq::new(lines.len(), |i: int| trim(lines[i]))
}

/// Each element cut to the length of a term.
pub open spec fn all_cut(terms: Seq<Seq<char>>) -> Seq<Seq<char>> {
    Seq::new(terms.len(), |i: int| head(terms[i], MAX_TERM_CHARS as nat))
}

/// A trimmed line that is neither empty nor a comment.
pub open spec fn meaningful() -> spec_fn(Seq<char>) -> bool {
    |line: Seq<char>| line.len() > 0 && line[0] != '#'
}

/// A term that is not empty.
pub open spec fn nonempty() -> spec_fn(Seq<char>) -> bool {
    |term: Seq<char>| term.len() > 0
}

/// The lines of a file that say something, trimmed. A carriage return before
/// the end of a line is white space and falls to the trimming.
pub open spec fn meaningful_lines(content: Seq<char>) -> Seq<Seq<char>> {
    all_trimmed(split(content, CharClass::Only('\n'))).filter(meaningful())
}

/// The terms of a hotword file.
pub open spec fn vocabulary_of(content: Seq<char>) -> Seq<Seq<char>> {
    all_cut(meaningful_lines(content))
}

/// The terms of a comma separated list, blank ones left out.
pub open spec fn terms_of(value: Seq<char>) -> Seq<Seq<char>> {
    all_cut(all_trimmed(split(value, CharClass::Only(','))).filter(nonempty()))
}

/// An entity with the words it may be misheard as and the cues that tell the
/// two readings apart.
#[derive(Debug)]
pub struct EntityRule {
    pub canonical: String,
    pub aliases: Vec<String>,
    pub entity_context: Vec<String>,
    pub ordinary_context: Vec<String>,
}

/// The text held by [`EntityRule`].
#[verifier::ext_equal]
pub struct EntityRuleView {
    pub canonical: Seq<char>,
    pub aliases: Seq<Seq<char>>,
    pub entity_context: Seq<Seq<char>>,
    pub ordinary_context: Seq<Seq<char>>,
}

impl View for EntityRule {
    type V = EntityRuleView;

    open spec fn view(&self) -> EntityRuleView {
        EntityRuleView {
            canonical: self.canonical@,
            aliases: views(self.aliases@),
            entity_context: views(self.entity_context@),
            ordinary_context: views(self.ordinary_context@),
        }
    }
}

/// The text held by each rule.
pub open spec fn rule_views(rules: Seq<EntityRule>) -> Seq<EntityRuleView> {
    Seq::new(rules.len(), |i: int| rules[i]@)
}

/// Every rule names at least one alias.
pub open spec fn rules_are_usable(rules: Seq<EntityRuleView>) -> bool {
    forall|i: int| 0 <= i < rules.len() ==> (#[trigger] rules[i]).aliases.len() > 0
}

/// The rule written on one line: canonical spelling, aliases, cues for the
/// entity and cues for the ordinary word, separated by tabs. Further fields are
/// ignored; a line with fewer, without a spelling or without an alias is none.
pub open spec fn rule_of(line: Seq<char>) -> Option<EntityRuleView> {
    let fields = split(line, CharClass::Only('\t'));
    if fields.len() >= 4 && trim(fields[0]).len() > 0 && terms_of(fields[1]).len() > 0 {
        Some(
            EntityRuleView {
                canonical: head(trim(fields[0]), MAX_TERM_CHARS as nat),
                aliases: terms_of(fields[1]),
                entity_context: terms_of(fields[2]),
                ordinary_context: terms_of(fields[3]),
            },
        )
    } else {
        None
    }
}

/// [`rule_of`] as a function.
pub open spec fn rule_parser() -> spec_fn(Seq<char>) -> Option<EntityRuleView> {
    |line: Seq<char>| rule_of(line)
}

/// The rules of an entity file.
pub open spec fn rules_of(content: Seq<char>) -> Seq<EntityRuleView> {
    meaningful_lines(content).filter_map(rule_parser())
}

/// `cue` is found in `text`, whatever its case.
pub open spec fn found_in(text: Seq<char>) -> spec_fn(Seq<char>) -> bool {
    |cue: Seq<char>| contains(lowercase(text), lowercase(cue))
}

/// How many of the cues are found in `text`.
pub open spec fn score(text: Seq<char>, cues: Seq<Seq<char>>) -> nat {
    cues.filter(found_in(text)).len()
}

/// No ASCII letter or digit stands directly before `start` or at `end`.
pub open spec fn is_whole_word(value: Seq<char>, start: int, end: int) -> bool {
    !(start > 0 && is_ascii_alphanumeric(value[start - 1])) && !(end < value.len()
        && is_ascii_alphanumeric(value[end]))
}

/// What is left of `value` from position `i` on once every whole word `word`
/// (in small letters, matched in any case) is `replacement`. Occurrences are
/// found from left to right and do not overlap, those inside words included.
pub open spec fn word_replaced_from(
    value: Seq<char>,
    word: Seq<char>,
    replacement: Seq<char>,
    i: int,
) -> Seq<char>
    decreases value.len() - i,
{
    if i < 0 || i >= value.len() || word.len() == 0 {
        value.skip(i)
    } else if occurs_at(lowercase(value), word, i) {
        let end = i + word.len();
        (if is_whole_word(value, i, end) {
            replacement
        } else {
            value.subrange(i, end)
        }) + word_replaced_from(value, word, replacement, end)
    } else {
        seq![value[i]] + word_replaced_from(value, word, replacement, i + 1)
    }
}

/// `value` with the ASCII word `needle` replaced where it stands alone.
pub open spec fn word_replaced(
    value: Seq<char>,
    needle: Seq<char>,
    replacement: Seq<char>,
) -> Seq<char> {
    if needle.len() == 0 || !all_ascii(needle) {
        value
    } else {
        word_replaced_from(value, lowercase(needle), replacement, 0)
    }
}

/// `value` with every alias replaced, one after another.
pub open spec fn aliases_replaced(
    value: Seq<char>,
    aliases: Seq<Seq<char>>,
    canonical: Seq<char>,
) -> Seq<char>
    decreases aliases.len(),
{
    if aliases.len() == 0 {
        value
    } else {
        word_replaced(
            aliases_replaced(value, aliases.drop_last(), canonical),
            aliases.last(),
            canonical,
        )
    }
}

/// `value` after one rule: the reading with more cues wins, and a tie changes
/// nothing.
pub open spec fn resolved_by(value: Seq<char>, rule: EntityRuleView) -> Seq<char> {
    let entity = score(value, rule.entity_context);
    let ordinary = score(value, rule.ordinary_context);
    if entity > ordinary {
        aliases_replaced(value, rule.aliases, rule.canonical)
    } else if ordinary > entity {
        word_replaced(value, rule.canonical, rule.aliases[0])
    } else {
        value
    }
}

/// `value` after all rules, one after another.
pub open spec fn resolved(value: Seq<char>, rules: Seq<EntityRuleView>) -> Seq<char>
    decreases rules.len(),
{
    if rules.len() == 0 {
        value
    } else {
        resolved_by(resolved(value, rules.drop_last()), rules.last())
    }
}

/// What makes two entries the same: the trimmed text in small letters.
pub open spec fn entry_key(entry: Seq<char>) -> Seq<char> {
    lowercase(trim(entry))
}

/// The keys of the entries.
pub open spec fn entry_keys(entries: Seq<Seq<char>>) -> Set<Seq<char>> {
    Set::new(|key: Seq<char>| exists|i: int| 0 <= i < entries.len() && key == entry_key(#[trigger] entries[i]))
}

/// The entries without those whose key came before.
pub open spec fn deduplicated(entries: Seq<Seq<char>>) -> Seq<Seq<char>>
    decreases entries.len(),
{
    if entries.len() == 0 {
        Seq::empty()
    } else {
        let before = deduplicated(entries.drop_last());
        if entry_keys(entries.drop_last()).contains(entry_key(entries.last())) {
            before
        } else {
            before.push(entries.last())
        }
    }
}

/// Trims the pieces of `value` between `separator` and keeps those that say
/// something.
fn kept_pieces(value: &str, separator: char, skip_comments: bool) -> (r: Vec<Vec<char>>)
    ensures
        piece_views(r@) == all_trimmed(split(value@, CharClass::Only(separator))).filter(
            if skip_comments {
                meaningful()
            } else {
                nonempty()
            },
        ),
{
    let chars = chars_of(value);
    let all = pieces(chars.as_slice(), &CharClass::Only(separator));
    let ghost lines = all_trimmed(piece_views(all@));
    let ghost wanted = if skip_comments {
        meaningful()
    } else {
        nonempty()
    };
    let mut r: Vec<Vec<char>> = Vec::new();
    let mut i: usize = 0;
    proof {
        reveal(Seq::filter);
        assert(lines.take(0) =~= Seq::empty());
        assert(piece_views(r@) =~= lines.take(0).filter(wanted));
    }
    while i < all.len()
        invariant
            i <= all.len(),
            lines == all_trimmed(piece_views(all@)),
            wanted == (if skip_comments {
                meaningful()
            } else {
                nonempty()
            }),
            piece_views(r@) == lines.take(i as int).filter(wanted),
        decreases all.len() - i,
    {
        let ghost before = r@;
        proof {
            reveal(Seq::filter);
            assert(lines.take(i + 1).drop_last() =~= lines.take(i as int));
        }
        let line = trimmed(all[i].as_slice());
        if line.len() > 0 && !(skip_comments && line[0] == '#') {
            let mut copy: Vec<char> = Vec::new();
            append(&mut copy, line);
            assert(copy@ =~= line@);
            r.push(copy);
            assert(piece_views(r@) =~= piece_views(before).push(line@));
        }
        i += 1;
    }
    assert(lines.take(i as int) =~= lines);
    r
}

/// The pieces as strings, cut to the length of a term.
fn cut_pieces(list: &Vec<Vec<char>>) -> (r: Vec<String>)
    ensures
        views(r@) == all_cut(piece_views(list@)),
{
    let mut r: Vec<String> = Vec::new();
    let mut i: usize = 0;
    while i < list.len()
        invariant
            i <= list.len(),
            r@.len() == i,
            forall|j: int|
                0 <= j < i ==> (#[trigger] r@[j])@ == head(
                    piece_views(list@)[j],
                    MAX_TERM_CHARS as nat,
                ),
        decreases list.len() - i,
    {
        r.push(string_of(first_chars(list[i].as_slice(), MAX_TERM_CHARS)));
        i += 1;
    }
    assert(views(r@) =~= all_cut(piece_views(list@)));
    r
}

/// The terms of a hotword file.
pub fn parse_vocabulary(content: &str) -> (r: Vec<String>)
    ensures
        views(r@) == vocabulary_of(content@),
{
    let lines = kept_pieces(content, '\n', true);
    cut_pieces(&lines)
}

/// The terms of a comma separated list, blank ones left out.
pub fn split_terms(value: &str) -> (r: Vec<String>)
    ensures
        views(r@) == terms_of(value@),
{
    let terms = kept_pieces(value, ',', false);
    cut_pieces(&terms)
}

/// The rule written on one line.
fn parse_rule(line: &[char]) -> (r: Option<EntityRule>)
    ensures
        match r {
            Some(rule) => rule_of(line@) == Some(rule@),
            None => rule_of(line@) is None,
        },
{
    let fields = pieces(line, &CharClass::Only('\t'));
    let ghost written = split(line@, CharClass::Only('\t'));
    assert(written == piece_views(fields@));
    if fields.len() < 4 {
        return None;
    }
    let canonical = trimmed(fields[0].as_slice());
    assert(canonical@ == trim(written[0]));
    let alias_field = string_of(fields[1].as_slice());
    let entity_field = string_of(fields[2].as_slice());
    let ordinary_field = string_of(fields[3].as_slice());
    assert(alias_field@ == written[1]);
    assert(entity_field@ == written[2]);
    assert(ordinary_field@ == written[3]);
    let aliases = split_terms(alias_field.as_str());
    assert(aliases@.len() == views(aliases@).len());
    if canonical.len() == 0 || aliases.len() == 0 {
        return None;
    }
    Some(
        EntityRule {
            canonical: string_of(first_chars(canonical, MAX_TERM_CHARS)),
            aliases,
            entity_context: split_terms(entity_field.as_str()),
            ordinary_context: split_terms(ordinary_field.as_str()),
        },
    )
}

/// The rules of an entity file. Every one of them has an alias.
pub fn parse_entity_rules(content: &str) -> (r: Vec<EntityRule>)
    ensures
        rule_views(r@) == rules_of(content@),
        rules_are_usable(rule_views(r@)),
{
    let lines = kept_pieces(content, '\n', true);
    let ghost written = piece_views(lines@);
    let mut r: Vec<EntityRule> = Vec::new();
    let mut i: usize = 0;
    assert(written.take(0) =~= Seq::empty());
    assert(rule_views(r@) =~= written.take(0).filter_map(rule_parser()));
    while i < lines.len()
        invariant
            i <= lines.len(),
            written == piece_views(lines@),
            rule_views(r@) == written.take(i as int).filter_map(rule_parser()),
            rules_are_usable(rule_views(r@)),
        decreases lines.len() - i,
    {
        let ghost before = r@;
        assert(written.take(i + 1).drop_last() =~= written.take(i as int));
        assert(written.take(i + 1).last() == lines@[i as int]@);
        match parse_rule(lines[i].as_slice()) {
            Some(rule) => {
                let ghost added = rule@;
                r.push(rule);
                assert(rule_views(r@) =~= rule_views(before) + seq![added]);
                assert(rules_are_usable(rule_views(r@)));
            },
            None => {},
        }
        i += 1;
    }
    assert(written.take(i as int) =~= written);
    r
}

/// How many of the cues are found in `text`.
fn count_cues(text: &[char], cues: &[String]) -> (r: usize)
    ensures
        r == score(text@, views(cues@)),
{
    let normalized = lowered(text);
    let ghost all = views(cues@);
    let ghost found = found_in(text@);
    let mut count: usize = 0;
    let mut i: usize = 0;
    proof {
        reveal(Seq::filter);
        assert(all.take(0) =~= Seq::empty());
    }
    while i < cues.len()
        invariant
            i <= cues.len(),
            count <= i,
            normalized@ == lowercase(text@),
            all == views(cues@),
            found == found_in(text@),
            count == all.take(i as int).filter(found).len(),
        decreases cues.len() - i,
    {
        proof {
            reveal(Seq::filter);
            assert(all.take(i + 1).drop_last() =~= all.take(i as int));
        }
        let chars = chars_of(cues[i].as_str());
        let cue = lowered(chars.as_slice());
        if includes(normalized.as_slice(), cue.as_slice()) {
            count += 1;
        }
        i += 1;
    }
    assert(all.take(i as int) =~= all);
    count
}

/// Whether all characters are ASCII.
fn is_all_ascii(s: &[char]) -> (r: bool)
    ensures
        r == all_ascii(s@),
{
    let mut i: usize = 0;
    while i < s.len()
        invariant
            i <= s.len(),
            forall|j: int| 0 <= j < i ==> (#[trigger] s@[j]) as u32 <= 0x7F,
        decreases s.len() - i,
    {
        if s[i] as u32 > 0x7F {
            return false;
        }
        i += 1;
    }
    true
}

/// `value` with the ASCII word `needle` replaced where it stands alone.
fn replace_word(value: &[char], needle: &[char], replacement: &[char]) -> (r: Vec<char>)
    ensures
        r@ == word_replaced(value@, needle@, replacement@),
{
    let mut output: Vec<char> = Vec::new();
    if needle.len() == 0 || !is_all_ascii(needle) {
        append(&mut output, value);
        assert(output@ =~= value@);
        return output;
    }
    let normalized = lowered(value);
    let word = lowered(needle);
    let mut i: usize = 0;
    while i < value.len()
        invariant
            i <= value.len(),
            normalized@ == lowercase(value@),
            word@ == lowercase(needle@),
            word@.len() > 0,
            output@ + word_replaced_from(value@, word@, replacement@, i as int)
                == word_replaced_from(value@, word@, replacement@, 0),
        decreases value.len() - i,
    {
        let ghost done = output@;
        if stands_at(normalized.as_slice(), word.as_slice(), i) {
            let end: usize = i + word.len();
            let before_is_word = i > 0 && ascii_alphanumeric(value[i - 1]);
            let after_is_word = end < value.len() && ascii_alphanumeric(value[end]);
            if before_is_word || after_is_word {
                append(&mut output, slice_subrange(value, i, end));
                assert(output@ + word_replaced_from(value@, word@, replacement@, end as int)
                    =~= done + (value@.subrange(i as int, end as int) + word_replaced_from(
                    value@,
                    word@,
                    replacement@,
                    end as int,
                )));
            } else {
                append(&mut output, replacement);
                assert(output@ + word_replaced_from(value@, word@, replacement@, end as int)
                    =~= done + (replacement@ + word_replaced_from(
                    value@,
                    word@,
                    replacement@,
                    end as int,
                )));
            }
            i = end;
        } else {
            output.push(value[i]);
            assert(output@ + word_replaced_from(value@, word@, replacement@, i + 1) =~= done + (
            seq![value@[i as int]] + word_replaced_from(value@, word@, replacement@, i + 1)));
            i += 1;
        }
    }
    assert(output@ + value@.skip(i as int) =~= output@);
    output
}

/// `value` with the ASCII word `needle` replaced where it stands alone, in any
/// case.
pub fn replace_ascii_word(value: &str, needle: &str, replacement: &str) -> (r: String)
    ensures
        r@ == word_replaced(value@, needle@, replacement@),
{
    let value_chars = chars_of(value);
    let needle_chars = chars_of(needle);
    let replacement_chars = chars_of(replacement);
    let output = replace_word(
        value_chars.as_slice(),
        needle_chars.as_slice(),
        replacement_chars.as_slice(),
    );
    string_of(output.as_slice())
}

/// `value` with every alias replaced, one after another.
fn replace_aliases(value: &[char], aliases: &[String], canonical: &[char]) -> (r: Vec<char>)
    ensures
        r@ == aliases_replaced(value@, views(aliases@), canonical@),
{
    let mut text: Vec<char> = Vec::new();
    append(&mut text, value);
    assert(text@ =~= value@);
    let ghost all = views(aliases@);
    let mut i: usize = 0;
    assert(all.take(0) =~= Seq::empty());
    while i < aliases.len()
        invariant
            i <= aliases.len(),
            all == views(aliases@),
            text@ == aliases_replaced(value@, all.take(i as int), canonical@),
        decreases aliases.len() - i,
    {
        let alias = chars_of(aliases[i].as_str());
        assert(all.take(i + 1).drop_last() =~= all.take(i as int));
        assert(all.take(i + 1).last() == alias@);
        text = replace_word(text.as_slice(), alias.as_slice(), canonical);
        i += 1;
    }
    assert(all.take(i as int) =~= all);
    text
}

/// Resolves ambiguous words in `value` by the rules, one after another.
pub fn resolve_with_rules(value: &str, rules: &[EntityRule]) -> (r: String)
    requires
        rules_are_usable(rule_views(rules@)),
    ensures
        r@ == resolved(value@, rule_views(rules@)),
{
    let mut text = chars_of(value);
    let ghost all = rule_views(rules@);
    let mut i: usize = 0;
    assert(all.take(0) =~= Seq::empty());
    while i < rules.len()
        invariant
            i <= rules.len(),
            all == rule_views(rules@),
            rules_are_usable(all),
            text@ == resolved(value@, all.take(i as int)),
        decreases rules.len() - i,
    {
        let rule = &rules[i];
        assert(all.take(i + 1).drop_last() =~= all.take(i as int));
        assert(all.take(i + 1).last() == rule@);
        assert(all[i as int].aliases.len() > 0);
        let entity_score = count_cues(text.as_slice(), rule.entity_context.as_slice());
        let ordinary_score = count_cues(text.as_slice(), rule.ordinary_context.as_slice());
        let canonical = chars_of(rule.canonical.as_str());
        if entity_score > ordinary_score {
            text = replace_aliases(text.as_slice(), rule.aliases.as_slice(), canonical.as_slice());
        } else if ordinary_score > entity_score {
            let alias = chars_of(rule.aliases[0].as_str());
            assert(alias@ == rule@.aliases[0]);
            text = replace_word(text.as_slice(), canonical.as_slice(), alias.as_slice());
        }
        i += 1;
    }
    assert(all.take(i as int) =~= all);
    string_of(text.as_slice())
}

/// The entries without those whose key came before.
pub fn deduplicate(entries: Vec<String>) -> (r: Vec<String>)
    ensures
        views(r@) == deduplicated(views(entries@)),
{
    let ghost all = views(entries@);
    let mut seen = StringHashSet::new();
    let mut r: Vec<String> = Vec::new();
    let mut i: usize = 0;
    assert(all.take(0) =~= Seq::empty());
    assert(views(r@) =~= Seq::empty());
    assert(seen@ =~= entry_keys(all.take(0)));
    while i < entries.len()
        invariant
            i <= entries.len(),
            all == views(entries@),
            seen@ == entry_keys(all.take(i as int)),
            views(r@) == deduplicated(all.take(i as int)),
        decreases entries.len() - i,
    {
        let ghost before = r@;
        let ghost shorter = all.take(i as int);
        let ghost longer = all.take(i + 1);
        let chars = chars_of(entries[i].as_str());
        let key = lowered(trimmed(chars.as_slice()));
        proof {
            assert(longer.drop_last() =~= shorter);
            assert(longer.last() == chars@);
            assert(entry_keys(longer) =~= entry_keys(shorter).insert(key@)) by {
                assert forall|k: Seq<char>| entry_keys(longer).contains(k) implies entry_keys(
                    shorter,
                ).insert(key@).contains(k) by {
                    let j = choose|j: int|
                        0 <= j < longer.len() && k == entry_key(#[trigger] longer[j]);
                    if j < shorter.len() {
                        assert(shorter[j] == longer[j]);
                    }
                }
                assert forall|k: Seq<char>| entry_keys(shorter).insert(key@).contains(
                    k,
                ) implies entry_keys(longer).contains(k) by {
                    if k == key@ {
                        assert(k == entry_key(longer[i as int]));
                    } else {
                        let j = choose|j: int|
                            0 <= j < shorter.len() && k == entry_key(#[trigger] shorter[j]);
                        assert(shorter[j] == longer[j]);
                    }
                }
            }
        }
        if seen.insert(string_of(key.as_slice())) {
            r.push(entries[i].clone());
            assert(views(r@) =~= views(before).push(longer.last()));
        }
        i += 1;
    }
    assert(all.take(i as int) =~= all);
    r
}

/// `primary` followed by `domain`, without repetition: what the user brought
/// wins.
pub fn merge_vocabulary(primary: Vec<String>, domain: Vec<String>) -> (r: Vec<String>)
    ensures
        views(r@) == deduplicated(views(primary@) + views(domain@)),
{
    let mut entries = primary;
    let mut more = domain;
    let ghost both = views(primary@) + views(domain@);
    entries.append(&mut more);
    assert(views(entries@) =~= both);
    deduplicate(entries)
}

/// What is known of a file before it is read.
#[derive(Debug, Clone, Copy, PartialEq, Eq, Structural)]
pub struct FileMetadata {
    pub is_file: bool,
    pub length: u64,
}

/// A file of a vocabulary directory: its name, what is known of it, and its
/// text if it could be read.
#[derive(Debug)]
pub struct VocabularyFile {
    pub name: Vec<u8>,
    pub metadata: Option<FileMetadata>,
    pub content: Option<String>,
}

/// The text held by [`VocabularyFile`].
#[verifier::ext_equal]
pub struct VocabularyFileView {
    pub name: Seq<u8>,
    pub metadata: Option<FileMetadata>,
    pub content: Option<Seq<char>>,
}

impl View for VocabularyFile {
    type V = VocabularyFileView;

    open spec fn view(&self) -> VocabularyFileView {
        VocabularyFileView {
            name: self.name@,
            metadata: self.metadata,
            content: option_view(self.content),
        }
    }
}

/// The text held by each file.
pub open spec fn file_views(files: Seq<VocabularyFile>) -> Seq<VocabularyFileView> {
    Seq::new(files.len(), |i: int| files[i]@)
}

/// The files of each directory.
pub open spec fn directory_views(
    directories: Seq<Vec<VocabularyFile>>,
) -> Seq<Seq<VocabularyFileView>> {
    Seq::new(directories.len(), |i: int| file_views(directories[i]@))
}

/// A hotword list, by its name.
pub open spec fn is_terms_file(name: Seq<u8>) -> bool {
    has_suffix(name, encode_utf8(".txt"@))
}

/// A file of entity rules, by its name.
pub open spec fn is_rules_file(name: Seq<u8>) -> bool {
    has_suffix(name, encode_utf8(".tsv"@))
}

/// The files that matter: entity rules, and hotword lists unless only rules are
/// asked for.
pub open spec fn is_listed(rules_only: bool) -> spec_fn(Seq<u8>) -> bool {
    |name: Seq<u8>| is_rules_file(name) || (!rules_only && is_terms_file(name))
}

/// The names to read, in byte order, at most [`MAX_VOCABULARY_FILES`] of them.
pub open spec fn selected_files(names: Seq<Seq<u8>>, rules_only: bool) -> Seq<Seq<u8>> {
    let sorted = names.filter(is_listed(rules_only)).sort_by(byte_order());
    if sorted.len() <= MAX_VOCABULARY_FILES {
        sorted
    } else {
        sorted.take(MAX_VOCABULARY_FILES as int)
    }
}

/// A regular file that is not too long.
pub open spec fn is_readable(metadata: Option<FileMetadata>) -> bool {
    metadata matches Some(known) && known.is_file && known.length <= MAX_FILE_BYTES
}

/// The text of a file, if it is one to read and could be read.
pub open spec fn text_of(file: VocabularyFileView) -> Option<Seq<char>> {
    if is_readable(file.metadata) {
        file.content
    } else {
        None
    }
}

/// The entity names of the rules, marked as candidates.
pub open spec fn candidates_of(rules: Seq<EntityRuleView>) -> Seq<Seq<char>> {
    Seq::new(rules.len(), |i: int| seq!['@'] + rules[i].canonical)
}

/// The names of the files.
pub open spec fn names_of(files: Seq<VocabularyFileView>) -> Seq<Seq<u8>> {
    Seq::new(files.len(), |i: int| files[i].name)
}

/// The text of the file with this name, if there is one to read.
pub open spec fn text_named(files: Seq<VocabularyFileView>, name: Seq<u8>) -> Option<Seq<char>>
    decreases files.len(),
{
    if files.len() == 0 {
        None
    } else if files[0].name == name {
        text_of(files[0])
    } else {
        text_named(files.drop_first(), name)
    }
}

/// The entries that the text of a file with this name brings: terms from a
/// hotword list, marked candidates from entity rules.
pub open spec fn entries_of(name: Seq<u8>, content: Option<Seq<char>>) -> Seq<Seq<char>> {
    match content {
        Some(content) => if is_terms_file(name) {
            vocabulary_of(content)
        } else {
            candidates_of(rules_of(content))
        },
        None => Seq::empty(),
    }
}

/// The entries of the named files, in order.
pub open spec fn entries_from(files: Seq<VocabularyFileView>, names: Seq<Seq<u8>>) -> Seq<Seq<char>>
    decreases names.len(),
{
    if names.len() == 0 {
        Seq::empty()
    } else {
        entries_from(files, names.drop_last()) + entries_of(
            names.last(),
            text_named(files, names.last()),
        )
    }
}

/// The entries of a directory that holds `files`: those of the files to read.
pub open spec fn directory_entries(files: Seq<VocabularyFileView>) -> Seq<Seq<char>> {
    entries_from(files, selected_files(names_of(files), false))
}

/// The entries of all directories, in order.
pub open spec fn all_entries(directories: Seq<Seq<VocabularyFileView>>) -> Seq<Seq<char>>
    decreases directories.len(),
{
    if directories.len() == 0 {
        Seq::empty()
    } else {
        all_entries(directories.drop_last()) + directory_entries(directories.last())
    }
}

/// `value` after the rules of the named files, one after another.
pub open spec fn resolved_from(
    value: Seq<char>,
    files: Seq<VocabularyFileView>,
    names: Seq<Seq<u8>>,
) -> Seq<char>
    decreases names.len(),
{
    if names.len() == 0 {
        value
    } else {
        let before = resolved_from(value, files, names.drop_last());
        match text_named(files, names.last()) {
            Some(content) => resolved(before, rules_of(content)),
            None => before,
        }
    }
}

/// `value` after the rules of a directory that holds `files`: those of the rule
/// files to read.
pub open spec fn resolved_in(value: Seq<char>, files: Seq<VocabularyFileView>) -> Seq<char> {
    resolved_from(value, files, selected_files(names_of(files), true))
}

/// `value` after the rules of all directories, one after another.
pub open spec fn resolved_everywhere(
    value: Seq<char>,
    directories: Seq<Seq<VocabularyFileView>>,
) -> Seq<char>
    decreases directories.len(),
{
    if directories.len() == 0 {
        value
    } else {
        resolved_in(resolved_everywhere(value, directories.drop_last()), directories.last())
    }
}

/// The directories that are searched, in order: the one asked for explicitly,
/// the user's own, and the installed one.
pub fn vocabulary_directories(requested: Option<Vec<u8>>, data_home: &[u8]) -> (r: Vec<Vec<u8>>)
    ensures
        ({
            let own = joined_path(
                joined_path(data_home@, encode_utf8("natsu-typeless"@)),
                encode_utf8("vocabulary.d"@),
            );
            let installed = encode_utf8("/usr/share/natsu-typeless/vocabulary.d"@);
            byte_views(r@) == match requested {
                Some(path) => seq![path@, own, installed],
                None => seq![own, installed],
            }
        }),
{
    let mut r: Vec<Vec<u8>> = Vec::new();
    let ghost asked = requested;
    if let Some(path) = requested {
        r.push(path);
    }
    let own = join_path(data_home, "natsu-typeless");
    r.push(join_path(own.as_slice(), "vocabulary.d"));
    r.push(crate::files::bytes_of("/usr/share/natsu-typeless/vocabulary.d"));
    proof {
        let own_path = joined_path(
            joined_path(data_home@, encode_utf8("natsu-typeless"@)),
            encode_utf8("vocabulary.d"@),
        );
        let installed = encode_utf8("/usr/share/natsu-typeless/vocabulary.d"@);
        match asked {
            Some(path) => {
                assert(byte_views(r@) =~= seq![path@, own_path, installed]);
            },
            None => {
                assert(byte_views(r@) =~= seq![own_path, installed]);
            },
        }
    }
    r
}

/// The files of a directory to read, in byte order, at most
/// [`MAX_VOCABULARY_FILES`] of them.
pub fn select_files(names: Vec<Vec<u8>>, rules_only: bool) -> (r: Vec<Vec<u8>>)
    ensures
        byte_views(r@) == selected_files(byte_views(names@), rules_only),
{
    let ghost all = byte_views(names@);
    let ghost wanted = is_listed(rules_only);
    let mut listed: Vec<Vec<u8>> = Vec::new();
    let mut i: usize = 0;
    proof {
        reveal(Seq::filter);
        assert(all.take(0) =~= Seq::empty());
        assert(byte_views(listed@) =~= Seq::empty());
    }
    while i < names.len()
        invariant
            i <= names.len(),
            all == byte_views(names@),
            wanted == is_listed(rules_only),
            byte_views(listed@) == all.take(i as int).filter(wanted),
        decreases names.len() - i,
    {
        let ghost before = listed@;
        proof {
            reveal(Seq::filter);
            assert(all.take(i + 1).drop_last() =~= all.take(i as int));
        }
        let name = names[i].as_slice();
        if ends_with(name, ".tsv") || (!rules_only && ends_with(name, ".txt")) {
            listed.push(crate::files::copy_bytes(name));
            assert(byte_views(listed@) =~= byte_views(before).push(name@));
        }
        i += 1;
    }
    assert(all.take(i as int) =~= all);
    let mut sorted = sort_names(listed);
    let ghost in_order = byte_views(sorted@);
    assert(sorted@.len() == in_order.len());
    if sorted.len() > MAX_VOCABULARY_FILES {
        sorted.truncate(MAX_VOCABULARY_FILES);
        assert(byte_views(sorted@) =~= in_order.take(MAX_VOCABULARY_FILES as int));
    }
    sorted
}

/// Whether a file is a regular one that is not too long.
pub fn may_read(metadata: &Option<FileMetadata>) -> (r: bool)
    ensures
        r == is_readable(*metadata),
{
    match metadata {
        Some(known) => known.is_file && known.length <= MAX_FILE_BYTES,
        None => false,
    }
}

/// Appends `more` to `entries`.
fn extend(entries: &mut Vec<String>, more: Vec<String>)
    ensures
        views(final(entries)@) == views(old(entries)@) + views(more@),
{
    let ghost both = views(entries@) + views(more@);
    let mut rest = more;
    entries.append(&mut rest);
    assert(views(entries@) =~= both);
}

/// The entity names of the rules, marked as candidates.
fn mark_candidates(rules: &[EntityRule]) -> (r: Vec<String>)
    ensures
        views(r@) == candidates_of(rule_views(rules@)),
{
    let mut r: Vec<String> = Vec::new();
    let mut i: usize = 0;
    while i < rules.len()
        invariant
            i <= rules.len(),
            r@.len() == i,
            forall|j: int|
                0 <= j < i ==> (#[trigger] r@[j])@ == seq!['@'] + rule_views(rules@)[j].canonical,
        decreases rules.len() - i,
    {
        let name = crate::text::concat("@", rules[i].canonical.as_str());
        proof {
            reveal_strlit("@");
            assert("@"@ =~= seq!['@']);
        }
        r.push(name);
        i += 1;
    }
    assert(views(r@) =~= candidates_of(rule_views(rules@)));
    r
}

/// The files of a listing to read, by name.
fn files_to_read(files: &[VocabularyFile], rules_only: bool) -> (r: Vec<Vec<u8>>)
    ensures
        byte_views(r@) == selected_files(names_of(file_views(files@)), rules_only),
{
    let ghost all = names_of(file_views(files@));
    let mut names: Vec<Vec<u8>> = Vec::new();
    let mut i: usize = 0;
    while i < files.len()
        invariant
            i <= files.len(),
            all == names_of(file_views(files@)),
            byte_views(names@) == all.take(i as int),
        decreases files.len() - i,
    {
        let ghost before = names@;
        names.push(crate::files::copy_bytes(files[i].name.as_slice()));
        assert(byte_views(names@) =~= byte_views(before).push(all[i as int]));
        assert(all.take(i + 1) =~= all.take(i as int).push(all[i as int]));
        i += 1;
    }
    assert(all.take(i as int) =~= all);
    select_files(names, rules_only)
}

/// The text of the file with this name, if there is one to read.
fn find_text<'a>(files: &'a [VocabularyFile], name: &[u8]) -> (r: Option<&'a String>)
    ensures
        match r {
            Some(text) => text_named(file_views(files@), name@) == Some(text@),
            None => text_named(file_views(files@), name@) is None,
        },
{
    let ghost all = file_views(files@);
    let mut i: usize = 0;
    assert(all.skip(0) =~= all);
    while i < files.len()
        invariant
            i <= files.len(),
            all == file_views(files@),
            text_named(all, name@) == text_named(all.skip(i as int), name@),
        decreases files.len() - i,
    {
        assert(all.skip(i as int).drop_first() =~= all.skip(i + 1));
        assert(all.skip(i as int)[0] == files@[i as int]@);
        let file = &files[i];
        if same_bytes(file.name.as_slice(), name) {
            if may_read(&file.metadata) {
                return match &file.content {
                    Some(content) => Some(content),
                    None => None,
                };
            }
            return None;
        }
        i += 1;
    }
    None
}

/// The entries that the text of a file with this name brings.
fn file_entries(name: &[u8], content: Option<&String>) -> (r: Vec<String>)
    ensures
        views(r@) == entries_of(
            name@,
            match content {
                Some(content) => Some(content@),
                None => None,
            },
        ),
{
    match content {
        Some(content) => {
            if ends_with(name, ".txt") {
                return parse_vocabulary(content.as_str());
            }
            let rules = parse_entity_rules(content.as_str());
            mark_candidates(rules.as_slice())
        },
        None => {
            let none: Vec<String> = Vec::new();
            assert(views(none@) =~= Seq::empty());
            none
        },
    }
}

/// The vocabulary entries of a directory that holds `files`: hotwords and marked
/// entity names of the listed files, in byte order of their names, up to the
/// limit.
pub fn load_domain_vocabulary_from(files: &[VocabularyFile]) -> (r: Vec<String>)
    ensures
        views(r@) == directory_entries(file_views(files@)),
{
    let names = files_to_read(files, false);
    let ghost all = byte_views(names@);
    let mut entries: Vec<String> = Vec::new();
    let mut i: usize = 0;
    assert(all.take(0) =~= Seq::empty());
    assert(views(entries@) =~= Seq::empty());
    while i < names.len()
        invariant
            i <= names.len(),
            all == byte_views(names@),
            views(entries@) == entries_from(file_views(files@), all.take(i as int)),
        decreases names.len() - i,
    {
        assert(all.take(i + 1).drop_last() =~= all.take(i as int));
        assert(all.take(i + 1).last() == names@[i as int]@);
        let name = names[i].as_slice();
        let more = file_entries(name, find_text(files, name));
        extend(&mut entries, more);
        i += 1;
    }
    assert(all.take(i as int) =~= all);
    entries
}

/// The vocabulary entries of all directories, without repetition.
pub fn load_domain_vocabulary(directories: &[Vec<VocabularyFile>]) -> (r: Vec<String>)
    ensures
        views(r@) == deduplicated(all_entries(directory_views(directories@))),
{
    let ghost all = directory_views(directories@);
    let mut entries: Vec<String> = Vec::new();
    let mut i: usize = 0;
    assert(all.take(0) =~= Seq::empty());
    assert(views(entries@) =~= Seq::empty());
    while i < directories.len()
        invariant
            i <= directories.len(),
            all == directory_views(directories@),
            views(entries@) == all_entries(all.take(i as int)),
        decreases directories.len() - i,
    {
        assert(all.take(i + 1).drop_last() =~= all.take(i as int));
        assert(all.take(i + 1).last() == file_views(directories@[i as int]@));
        let more = load_domain_vocabulary_from(directories[i].as_slice());
        extend(&mut entries, more);
        i += 1;
    }
    assert(all.take(i as int) =~= all);
    deduplicate(entries)
}

/// `value` after the entity rules of a directory that holds `files`: those of the
/// rule files, in byte order of their names, up to the limit.
pub fn resolve_contextual_entities_in(value: &str, files: &[VocabularyFile]) -> (r: String)
    ensures
        r@ == resolved_in(value@, file_views(files@)),
{
    let names = files_to_read(files, true);
    let ghost all = byte_views(names@);
    let mut text = value.to_owned();
    let mut i: usize = 0;
    assert(all.take(0) =~= Seq::empty());
    while i < names.len()
        invariant
            i <= names.len(),
            all == byte_views(names@),
            text@ == resolved_from(value@, file_views(files@), all.take(i as int)),
        decreases names.len() - i,
    {
        assert(all.take(i + 1).drop_last() =~= all.take(i as int));
        assert(all.take(i + 1).last() == names@[i as int]@);
        match find_text(files, names[i].as_slice()) {
            Some(content) => {
                let rules = parse_entity_rules(content.as_str());
                text = resolve_with_rules(text.as_str(), rules.as_slice());
            },
            None => {},
        }
        i += 1;
    }
    assert(all.take(i as int) =~= all);
    text
}

/// `value` after the entity rules of all directories.
pub fn resolve_contextual_entities(value: &str, directories: &[Vec<VocabularyFile>]) -> (r: String)
    ensures
        r@ == resolved_everywhere(value@, directory_views(directories@)),
{
    let ghost all = directory_views(directories@);
    let mut text = value.to_owned();
    let mut i: usize = 0;
    assert(all.take(0) =~= Seq::empty());
    while i < directories.len()
        invariant
            i <= directories.len(),
            all == directory_views(directories@),
            text@ == resolved_everywhere(value@, all.take(i as int)),
        decreases directories.len() - i,
    {
        assert(all.take(i + 1).drop_last() =~= all.take(i as int));
        assert(all.take(i + 1).last() == file_views(directories@[i as int]@));
        text = resolve_contextual_entities_in(text.as_str(), directories[i].as_slice());
        i += 1;
    }
    assert(all.take(i as int) =~= all);
    text
}

/// Deduplication repeats no key, drops no key, and invents no entry.
pub proof fn deduplication_keeps_each_key_once(entries: Seq<Seq<char>>)
    ensures
        entry_keys(deduplicated(entries)) == entry_keys(entries),
        forall|i: int, j: int|
            0 <= i < j < deduplicated(entries).len() ==> entry_key(
                #[trigger] deduplicated(entries)[i],
            ) != entry_key(#[trigger] deduplicated(entries)[j]),
        forall|i: int|
            0 <= i < deduplicated(entries).len() ==> entries.contains(
                #[trigger] deduplicated(entries)[i],
            ),
    decreases entries.len(),
{
    let kept = deduplicated(entries);
    if entries.len() == 0 {
        assert(entry_keys(kept) =~= entry_keys(entries));
    } else {
        let shorter = entries.drop_last();
        let before = deduplicated(shorter);
        let last = entries.last();
        deduplication_keeps_each_key_once(shorter);
        assert(entries =~= shorter.push(last));
        lemma_keys_of_push(shorter, last);
        lemma_keys_of_push(before, last);
        let repeated = entry_keys(shorter).contains(entry_key(last));
        if repeated {
            assert(entry_keys(entries) =~= entry_keys(shorter));
        }
        assert forall|i: int, j: int| 0 <= i < j < kept.len() implies entry_key(
            #[trigger] kept[i],
        ) != entry_key(#[trigger] kept[j]) by {
            if j == before.len() {
                assert(kept[i] == before[i]);
                assert(entry_keys(before).contains(entry_key(before[i])));
            } else {
                assert(kept[i] == before[i] && kept[j] == before[j]);
            }
        }
        assert forall|i: int| 0 <= i < kept.len() implies entries.contains(
            #[trigger] kept[i],
        ) by {
            if i < before.len() {
                assert(kept[i] == before[i]);
                assert(shorter.contains(before[i]));
                let at = choose|at: int| 0 <= at < shorter.len() && shorter[at] == before[i];
                assert(entries[at] == kept[i]);
            } else {
                assert(entries[entries.len() - 1] == kept[i]);
            }
        }
    }
}

proof fn lemma_keys_of_push(entries: Seq<Seq<char>>, entry: Seq<char>)
    ensures
        entry_keys(entries.push(entry)) == entry_keys(entries).insert(entry_key(entry)),
{
    let longer = entries.push(entry);
    assert forall|k: Seq<char>| entry_keys(longer).contains(k) implies entry_keys(entries).insert(
        entry_key(entry),
    ).contains(k) by {
        let j = choose|j: int| 0 <= j < longer.len() && k == entry_key(#[trigger] longer[j]);
        if j < entries.len() {
            assert(entries[j] == longer[j]);
        }
    }
    assert forall|k: Seq<char>| entry_keys(entries).insert(entry_key(entry)).contains(
        k,
    ) implies entry_keys(longer).contains(k) by {
        if k == entry_key(entry) {
            assert(longer[entries.len() as int] == entry);
        } else {
            let j = choose|j: int| 0 <= j < entries.len() && k == entry_key(#[trigger] entries[j]);
            assert(longer[j] == entries[j]);
        }
    }
    assert(entry_keys(longer) =~= entry_keys(entries).insert(entry_key(entry)));
}

/// Deduplicating twice is deduplicating once.
pub proof fn deduplication_is_idempotent(entries: Seq<Seq<char>>)
    ensures
        deduplicated(deduplicated(entries)) == deduplicated(entries),
    decreases entries.len(),
{
    if entries.len() > 0 {
        let shorter = entries.drop_last();
        let before = deduplicated(shorter);
        deduplication_is_idempotent(shorter);
        deduplication_keeps_each_key_once(shorter);
        if !entry_keys(shorter).contains(entry_key(entries.last())) {
            assert(before.push(entries.last()).drop_last() =~= before);
        }
    }
}

/// What the user brought wins: the merged vocabulary begins with the user's own
/// entries, and nothing that follows has a key of theirs.
pub proof fn primary_entries_win(primary: Seq<Seq<char>>, domain: Seq<Seq<char>>)
    ensures
        deduplicated(primary).len() <= deduplicated(primary + domain).len(),
        deduplicated(primary + domain).take(deduplicated(primary).len() as int) == deduplicated(
            primary,
        ),
        forall|i: int|
            deduplicated(primary).len() <= i < deduplicated(primary + domain).len()
                ==> !entry_keys(primary).contains(
                entry_key(#[trigger] deduplicated(primary + domain)[i]),
            ),
    decreases domain.len(),
{
    let own = deduplicated(primary);
    if domain.len() == 0 {
        assert(primary + domain =~= primary);
        assert(own.take(own.len() as int) =~= own);
    } else {
        let shorter = domain.drop_last();
        let before = deduplicated(primary + shorter);
        let after = deduplicated(primary + domain);
        primary_entries_win(primary, shorter);
        assert((primary + domain).drop_last() =~= primary + shorter);
        assert((primary + domain).last() == domain.last());
        assert(after.take(own.len() as int) =~= before.take(own.len() as int));
        assert forall|i: int| own.len() <= i < after.len() implies !entry_keys(primary).contains(
            entry_key(#[trigger] after[i]),
        ) by {
            if i < before.len() {
                assert(after[i] == before[i]);
            } else if entry_keys(primary).contains(entry_key(after[i])) {
                let key = entry_key(after[i]);
                let at = choose|at: int|
                    0 <= at < primary.len() && key == entry_key(#[trigger] primary[at]);
                assert((primary + shorter)[at] == primary[at]);
                assert(entry_keys(primary + shorter).contains(key));
            }
        }
    }
}

/// No term read from a file is longer than the limit.
pub proof fn terms_are_bounded(content: Seq<char>, i: int)
    requires
        0 <= i < vocabulary_of(content).len(),
    ensures
        vocabulary_of(content)[i].len() <= MAX_TERM_CHARS,
{
}

/// Every rule read from a file has an alias, and its name is neither empty nor
/// longer than the limit.
pub proof fn parsed_rules_are_usable(content: Seq<char>)
    ensures
        rules_are_usable(rules_of(content)),
        forall|i: int|
            0 <= i < rules_of(content).len() ==> 0 < (
            #[trigger] rules_of(content)[i]).canonical.len() <= MAX_TERM_CHARS,
{
    lemma_rules_usable(meaningful_lines(content));
}

proof fn lemma_rules_usable(lines: Seq<Seq<char>>)
    ensures
        rules_are_usable(lines.filter_map(rule_parser())),
        forall|i: int|
            0 <= i < lines.filter_map(rule_parser()).len() ==> 0 < (
            #[trigger] lines.filter_map(rule_parser())[i]).canonical.len() <= MAX_TERM_CHARS,
    decreases lines.len(),
{
    if lines.len() > 0 {
        lemma_rules_usable(lines.drop_last());
    }
}

/// As many cues for one reading as for the other leave the text alone.
pub proof fn a_tie_changes_nothing(value: Seq<char>, rule: EntityRuleView)
    requires
        score(value, rule.entity_context) == score(value, rule.ordinary_context),
    ensures
        resolved_by(value, rule) == value,
{
}

/// A word that does not occur is replaced nowhere.
pub proof fn absent_words_change_nothing(
    value: Seq<char>,
    needle: Seq<char>,
    replacement: Seq<char>,
)
    requires
        !contains(lowercase(value), lowercase(needle)),
    ensures
        word_replaced(value, needle, replacement) == value,
{
    lemma_absent_word_from(value, lowercase(needle), replacement, 0);
    assert(value.skip(0) =~= value);
}

proof fn lemma_absent_word_from(
    value: Seq<char>,
    word: Seq<char>,
    replacement: Seq<char>,
    i: int,
)
    requires
        !contains(lowercase(value), word),
        0 <= i <= value.len(),
    ensures
        word_replaced_from(value, word, replacement, i) == value.skip(i),
    decreases value.len() - i,
{
    if i < value.len() && word.len() > 0 {
        assert(!occurs_at(lowercase(value), word, i));
        lemma_absent_word_from(value, word, replacement, i + 1);
        assert(seq![value[i]] + value.skip(i + 1) =~= value.skip(i));
    }
}

/// At most the allowed number of files is read, each of them listed, in byte
/// order.
pub proof fn file_selection_is_bounded(names: Seq<Seq<u8>>, rules_only: bool)
    ensures
        selected_files(names, rules_only).len() <= MAX_VOCABULARY_FILES,
        vstd::relations::sorted_by(selected_files(names, rules_only), byte_order()),
        forall|i: int|
            0 <= i < selected_files(names, rules_only).len() ==> names.contains(
                #[trigger] selected_files(names, rules_only)[i],
            ) && is_listed(rules_only)(selected_files(names, rules_only)[i]),
{
    let wanted = is_listed(rules_only);
    let listed = names.filter(wanted);
    let sorted = listed.sort_by(byte_order());
    let selected = selected_files(names, rules_only);
    crate::files::byte_order_is_total();
    listed.lemma_sort_by_ensures(byte_order());
    assert forall|i: int| 0 <= i < selected.len() implies names.contains(#[trigger] selected[i])
        && wanted(selected[i]) by {
        assert(selected[i] == sorted[i]);
        assert(sorted.contains(sorted[i]));
        assert(listed.contains(sorted[i]));
        let at = choose|at: int| 0 <= at < listed.len() && listed[at] == sorted[i];
        names.lemma_filter_pred(wanted, at);
        names.lemma_filter_contains_rev(wanted, listed[at]);
    }
}

/// A file that is not to be read changes nothing: neither the entries of its
/// directory nor, unless it holds entity rules, any text. Hotwords in particular
/// never replace text.
pub proof fn unlisted_files_change_nothing(
    files: Seq<VocabularyFileView>,
    extra: VocabularyFileView,
    value: Seq<char>,
)
    ensures
        !is_listed(false)(extra.name) ==> directory_entries(files.push(extra))
            == directory_entries(files),
        !is_rules_file(extra.name) ==> resolved_in(value, files.push(extra)) == resolved_in(
            value,
            files,
        ),
{
    let names = names_of(files);
    let more = names_of(files.push(extra));
    assert(more =~= names.push(extra.name));
    assert(more.drop_last() =~= names);
    reveal(Seq::filter);
    if !is_listed(false)(extra.name) {
        let selected = selected_files(names, false);
        file_selection_is_bounded(names, false);
        assert forall|i: int| 0 <= i < selected.len() implies text_named(
            files.push(extra),
            #[trigger] selected[i],
        ) == text_named(files, selected[i]) by {
            assert(is_listed(false)(selected[i]));
            lemma_text_of_push(files, extra, selected[i]);
        }
        lemma_same_texts(files.push(extra), files, selected, value);
    }
    if !is_rules_file(extra.name) {
        let selected = selected_files(names, true);
        file_selection_is_bounded(names, true);
        assert forall|i: int| 0 <= i < selected.len() implies text_named(
            files.push(extra),
            #[trigger] selected[i],
        ) == text_named(files, selected[i]) by {
            assert(is_listed(true)(selected[i]));
            lemma_text_of_push(files, extra, selected[i]);
        }
        lemma_same_texts(files.push(extra), files, selected, value);
    }
}

/// What a directory brings depends only on the texts of the files to read, at
/// most [`MAX_VOCABULARY_FILES`] of them.
pub proof fn only_selected_files_matter(
    a: Seq<VocabularyFileView>,
    b: Seq<VocabularyFileView>,
    value: Seq<char>,
)
    ensures
        selected_files(names_of(a), false) == selected_files(names_of(b), false) && same_texts(
            a,
            b,
            selected_files(names_of(a), false),
        ) ==> directory_entries(a) == directory_entries(b),
        selected_files(names_of(a), true) == selected_files(names_of(b), true) && same_texts(
            a,
            b,
            selected_files(names_of(a), true),
        ) ==> resolved_in(value, a) == resolved_in(value, b),
{
    let listed = selected_files(names_of(a), false);
    if same_texts(a, b, listed) {
        lemma_same_texts(a, b, listed, value);
    }
    let rules = selected_files(names_of(a), true);
    if same_texts(a, b, rules) {
        lemma_same_texts(a, b, rules, value);
    }
}

/// The named files have the same text in both listings.
pub open spec fn same_texts(
    a: Seq<VocabularyFileView>,
    b: Seq<VocabularyFileView>,
    names: Seq<Seq<u8>>,
) -> bool {
    forall|i: int|
        0 <= i < names.len() ==> text_named(a, #[trigger] names[i]) == text_named(b, names[i])
}

proof fn lemma_same_texts(
    a: Seq<VocabularyFileView>,
    b: Seq<VocabularyFileView>,
    names: Seq<Seq<u8>>,
    value: Seq<char>,
)
    requires
        same_texts(a, b, names),
    ensures
        entries_from(a, names) == entries_from(b, names),
        resolved_from(value, a, names) == resolved_from(value, b, names),
    decreases names.len(),
{
    if names.len() > 0 {
        let shorter = names.drop_last();
        assert forall|i: int| 0 <= i < shorter.len() implies text_named(a, #[trigger] shorter[i])
            == text_named(b, shorter[i]) by {
            assert(shorter[i] == names[i]);
        }
        lemma_same_texts(a, b, shorter, value);
        assert(names.last() == names[names.len() - 1]);
    }
}

proof fn lemma_text_of_push(
    files: Seq<VocabularyFileView>,
    extra: VocabularyFileView,
    name: Seq<u8>,
)
    requires
        extra.name != name,
    ensures
        text_named(files.push(extra), name) == text_named(files, name),
    decreases files.len(),
{
    if files.len() > 0 {
        lemma_text_of_push(files.drop_first(), extra, name);
        assert(files.push(extra).drop_first() =~= files.drop_first().push(extra));
    } else {
        assert(files.push(extra).drop_first() =~= files);
    }
}

/// Rules applied as one list are rules applied part by part.
pub proof fn rules_apply_in_sequence(
    value: Seq<char>,
    a: Seq<EntityRuleView>,
    b: Seq<EntityRuleView>,
)
    ensures
        resolved(value, a + b) == resolved(resolved(value, a), b),
    decreases b.len(),
{
    if b.len() == 0 {
        assert(a + b =~= a);
    } else {
        assert((a + b).drop_last() =~= a + b.drop_last());
        rules_apply_in_sequence(value, a, b.drop_last());
    }
}

/// A hotword file made of two, one under the other, holds the terms of the first
/// and then those of the second.
pub proof fn vocabularies_can_be_joined(a: Seq<char>, b: Seq<char>)
    ensures
        vocabulary_of(a.push('\n') + b) == vocabulary_of(a) + vocabulary_of(b),
{
    splitting_joined_text(a, '\n', b);
    let first = split(a, CharClass::Only('\n'));
    let second = split(b, CharClass::Only('\n'));
    assert(all_trimmed(first + second) =~= all_trimmed(first) + all_trimmed(second));
    Seq::filter_distributes_over_add(all_trimmed(first), all_trimmed(second), meaningful());
    assert(all_cut(meaningful_lines(a) + meaningful_lines(b)) =~= vocabulary_of(a)
        + vocabulary_of(b));
}

/// The first entry of each key is kept, and nothing else of that key is.
pub proof fn the_first_entry_of_each_key_is_kept(entries: Seq<Seq<char>>, i: int)
    requires
        0 <= i < entries.len(),
        forall|j: int| 0 <= j < i ==> entry_key(#[trigger] entries[j]) != entry_key(entries[i]),
    ensures
        deduplicated(entries).contains(entries[i]),
        forall|k: int|
            0 <= k < deduplicated(entries).len() && entry_key(#[trigger] deduplicated(entries)[k])
                == entry_key(entries[i]) ==> deduplicated(entries)[k] == entries[i],
{
    let upto = entries.take(i);
    let with = entries.take(i + 1);
    assert(!entry_keys(upto).contains(entry_key(entries[i]))) by {
        if entry_keys(upto).contains(entry_key(entries[i])) {
            let j = choose|j: int|
                0 <= j < upto.len() && entry_key(entries[i]) == entry_key(#[trigger] upto[j]);
            assert(upto[j] == entries[j]);
        }
    }
    assert(with.drop_last() =~= upto);
    assert(entries =~= with + entries.skip(i + 1));
    primary_entries_win(with, entries.skip(i + 1));
    let at = deduplicated(with).len() - 1;
    assert(deduplicated(entries)[at] == deduplicated(entries).take(
        deduplicated(with).len() as int,
    )[at]);
    deduplication_keeps_each_key_once(entries);
}

/// Merging the same domain vocabulary in again changes nothing.
pub proof fn merging_again_changes_nothing(primary: Seq<Seq<char>>, domain: Seq<Seq<char>>)
    ensures
        deduplicated(deduplicated(primary + domain) + domain) == deduplicated(primary + domain),
{
    let merged = deduplicated(primary + domain);
    deduplication_is_idempotent(primary + domain);
    deduplication_keeps_each_key_once(primary + domain);
    assert forall|i: int| 0 <= i < domain.len() implies entry_keys(merged).contains(
        entry_key(#[trigger] domain[i]),
    ) by {
        assert((primary + domain)[primary.len() + i] == domain[i]);
    }
    lemma_known_keys_add_nothing(merged, domain);
}

proof fn lemma_known_keys_add_nothing(entries: Seq<Seq<char>>, more: Seq<Seq<char>>)
    requires
        forall|i: int|
            0 <= i < more.len() ==> entry_keys(entries).contains(entry_key(#[trigger] more[i])),
    ensures
        deduplicated(entries + more) == deduplicated(entries),
    decreases more.len(),
{
    if more.len() == 0 {
        assert(entries + more =~= entries);
    } else {
        let shorter = more.drop_last();
        lemma_known_keys_add_nothing(entries, shorter);
        assert((entries + more).drop_last() =~= entries + shorter);
        let key = entry_key(more.last());
        assert(more.last() == more[more.len() - 1]);
        let at = choose|at: int|
            0 <= at < entries.len() && key == entry_key(#[trigger] entries[at]);
        assert((entries + shorter)[at] == entries[at]);
        assert(entry_keys(entries + shorter).contains(key));
    }
}

/// `word`, in any case, stands in `text` at `i`, with no ASCII letter or digit on
/// either side.
pub open spec fn stands_alone(text: Seq<char>, word: Seq<char>, i: int) -> bool {
    &&& occurs_at(lowercase(text), lowercase(word), i)
    &&& i == 0 || !is_ascii_alphanumeric(text[i - 1])
    &&& i + word.len() == text.len() || !is_ascii_alphanumeric(text[i + word.len()])
}

/// A word that stands alone nowhere is replaced nowhere, though it may stand
/// inside other words.
pub proof fn words_inside_others_stay(
    text: Seq<char>,
    word: Seq<char>,
    replacement: Seq<char>,
)
    requires
        forall|i: int| !#[trigger] stands_alone(text, word, i),
    ensures
        word_replaced(text, word, replacement) == text,
{
    lemma_words_inside_stay(text, word, replacement, 0);
    assert(text.skip(0) =~= text);
}

proof fn lemma_words_inside_stay(
    text: Seq<char>,
    word: Seq<char>,
    replacement: Seq<char>,
    i: int,
)
    requires
        0 <= i <= text.len(),
        forall|j: int| i <= j ==> !#[trigger] stands_alone(text, word, j),
    ensures
        word_replaced_from(text, lowercase(word), replacement, i) == text.skip(i),
    decreases text.len() - i,
{
    let low = lowercase(word);
    if i < text.len() && low.len() > 0 {
        if occurs_at(lowercase(text), low, i) {
            let end = i + low.len();
            assert(!stands_alone(text, word, i));
            lemma_words_inside_stay(text, word, replacement, end);
            assert(text.subrange(i, end) + text.skip(end) =~= text.skip(i));
        } else {
            lemma_words_inside_stay(text, word, replacement, i + 1);
            assert(seq![text[i]] + text.skip(i + 1) =~= text.skip(i));
        }
    }
}

/// A word that stands alone in one place is replaced there, in whatever case it is
/// written, and everything around it stays.
pub proof fn a_word_that_stands_alone_is_replaced(
    left: Seq<char>,
    written: Seq<char>,
    right: Seq<char>,
    word: Seq<char>,
    replacement: Seq<char>,
)
    requires
        word.len() > 0,
        all_ascii(word),
        lowercase(written) == lowercase(word),
        only_there(left + written + right, word, left.len() as int),
    ensures
        word_replaced(left + written + right, word, replacement) == left + replacement + right,
{
    let text = left + written + right;
    lemma_replaced_there(text, word, replacement, left.len() as int, 0);
    assert(lowercase(written).len() == lowercase(word).len());
    assert(text.subrange(0, left.len() as int) =~= left);
    assert(text.skip(left.len() as int + word.len()) =~= right);
    assert(word_replaced(text, word, replacement) =~= left + replacement + right);
}

/// `word` stands alone at `at` and nowhere else, and nothing that overlaps it from
/// the left looks like it.
pub open spec fn only_there(text: Seq<char>, word: Seq<char>, at: int) -> bool {
    &&& stands_alone(text, word, at)
    &&& forall|i: int| i != at ==> !#[trigger] stands_alone(text, word, i)
    &&& forall|i: int|
        at - word.len() < i < at ==> !#[trigger] occurs_at(lowercase(text), lowercase(word), i)
}

proof fn lemma_replaced_there(
    text: Seq<char>,
    word: Seq<char>,
    replacement: Seq<char>,
    at: int,
    i: int,
)
    requires
        word.len() > 0,
        only_there(text, word, at),
        0 <= i <= at,
    ensures
        word_replaced_from(text, lowercase(word), replacement, i) == text.subrange(i, at)
            + replacement + text.skip(at + word.len()),
    decreases at - i,
{
    let low = lowercase(word);
    assert(stands_alone(text, word, at));
    if i == at {
        lemma_words_inside_stay(text, word, replacement, at + word.len());
        assert(text.subrange(i, at) =~= Seq::<char>::empty());
        assert(word_replaced_from(text, low, replacement, i) =~= text.subrange(i, at) + replacement
            + text.skip(at + word.len()));
    } else if occurs_at(lowercase(text), low, i) {
        let end = i + low.len();
        assert(!stands_alone(text, word, i));
        assert(end <= at);
        lemma_replaced_there(text, word, replacement, at, end);
        assert(text.subrange(i, end) + text.subrange(end, at) =~= text.subrange(i, at));
        assert(word_replaced_from(text, low, replacement, i) =~= text.subrange(i, at) + replacement
            + text.skip(at + word.len()));
    } else {
        lemma_replaced_there(text, word, replacement, at, i + 1);
        assert(seq![text[i]] + text.subrange(i + 1, at) =~= text.subrange(i, at));
        assert(word_replaced_from(text, low, replacement, i) =~= text.subrange(i, at) + replacement
            + text.skip(at + word.len()));
    }
}

/// Words on the two sides of a character that neither belongs to a word nor
/// stands in the one looked for are replaced independently.
pub proof fn words_are_replaced_independently(
    a: Seq<char>,
    between: char,
    b: Seq<char>,
    word: Seq<char>,
    replacement: Seq<char>,
)
    requires
        !is_ascii_alphanumeric(between),
        !word.contains(between),
    ensures
        word_replaced(a.push(between) + b, word, replacement) == word_replaced(
            a,
            word,
            replacement,
        ).push(between) + word_replaced(b, word, replacement),
{
    if word.len() > 0 && all_ascii(word) {
        lemma_between_is_no_part(a, between, b, word);
        lemma_independent_left(a, between, b, word, replacement, 0);
    } else {
        assert(a.push(between) + b =~= word_replaced(a, word, replacement).push(between)
            + word_replaced(b, word, replacement));
    }
}

/// No occurrence reaches over the character between.
proof fn lemma_between_is_no_part(a: Seq<char>, between: char, b: Seq<char>, word: Seq<char>)
    requires
        !is_ascii_alphanumeric(between),
        !word.contains(between),
    ensures
        forall|i: int|
            i <= a.len() < i + word.len() ==> !#[trigger] occurs_at(
                lowercase(a.push(between) + b),
                lowercase(word),
                i,
            ),
{
    let text = a.push(between) + b;
    assert forall|i: int| i <= a.len() < i + word.len() implies !#[trigger] occurs_at(
        lowercase(text),
        lowercase(word),
        i,
    ) by {
        if occurs_at(lowercase(text), lowercase(word), i) {
            let k = a.len() - i;
            assert(lowercase(text).subrange(i, i + word.len())[k] == lowercase(word)[k]);
            lemma_lower_char(between);
            lemma_lower_char(word[k]);
            assert(lowercase(text)[a.len() as int] == lower_char(between));
            assert(word[k] == between);
            assert(word.contains(between));
        }
    }
}

proof fn lemma_independent_left(
    a: Seq<char>,
    between: char,
    b: Seq<char>,
    word: Seq<char>,
    replacement: Seq<char>,
    i: int,
)
    requires
        !is_ascii_alphanumeric(between),
        !word.contains(between),
        word.len() > 0,
        all_ascii(word),
        0 <= i <= a.len(),
    ensures
        word_replaced_from(a.push(between) + b, lowercase(word), replacement, i)
            == word_replaced_from(a, lowercase(word), replacement, i).push(between)
            + word_replaced(b, word, replacement),
    decreases a.len() - i,
{
    let text = a.push(between) + b;
    let low = lowercase(word);
    lemma_between_is_no_part(a, between, b, word);
    let there = word_replaced_from(a, low, replacement, i).push(between) + word_replaced(
        b,
        word,
        replacement,
    );
    if i == a.len() {
        assert(!occurs_at(lowercase(text), low, i));
        lemma_independent_right(a, between, b, word, replacement, 0);
        assert(text[i] == between);
        assert(a.skip(i) =~= Seq::<char>::empty());
        assert(word_replaced_from(text, low, replacement, i) =~= there);
    } else {
        let end = i + low.len();
        if end <= a.len() {
            assert(lowercase(text).subrange(i, end) =~= lowercase(a).subrange(i, end));
        }
        assert(occurs_at(lowercase(text), low, i) == occurs_at(lowercase(a), low, i));
        if occurs_at(lowercase(a), low, i) {
            lemma_independent_left(a, between, b, word, replacement, end);
            assert(is_whole_word(text, i, end) == is_whole_word(a, i, end));
            assert(text.subrange(i, end) =~= a.subrange(i, end));
        } else {
            lemma_independent_left(a, between, b, word, replacement, i + 1);
        }
        assert(word_replaced_from(text, low, replacement, i) =~= there);
    }
}

proof fn lemma_independent_right(
    a: Seq<char>,
    between: char,
    b: Seq<char>,
    word: Seq<char>,
    replacement: Seq<char>,
    j: int,
)
    requires
        !is_ascii_alphanumeric(between),
        word.len() > 0,
        0 <= j <= b.len(),
    ensures
        word_replaced_from(
            a.push(between) + b,
            lowercase(word),
            replacement,
            a.len() + 1 + j,
        ) == word_replaced_from(b, lowercase(word), replacement, j),
    decreases b.len() - j,
{
    let text = a.push(between) + b;
    let low = lowercase(word);
    let i = a.len() + 1 + j;
    if j == b.len() {
        assert(text.skip(i) =~= b.skip(j));
    } else {
        let end = j + low.len();
        if end <= b.len() {
            assert(lowercase(text).subrange(i, i + low.len()) =~= lowercase(b).subrange(j, end));
        }
        assert(occurs_at(lowercase(text), low, i) == occurs_at(lowercase(b), low, j));
        if occurs_at(lowercase(b), low, j) {
            lemma_independent_right(a, between, b, word, replacement, end);
            assert(is_whole_word(text, i, i + low.len()) == is_whole_word(b, j, end));
            assert(text.subrange(i, i + low.len()) =~= b.subrange(j, end));
        } else {
            lemma_independent_right(a, between, b, word, replacement, j + 1);
            assert(text[i] == b[j]);
        }
    }
}

/// Aliases replaced as one list are aliases replaced part by part.
pub proof fn aliases_apply_in_sequence(
    value: Seq<char>,
    a: Seq<Seq<char>>,
    b: Seq<Seq<char>>,
    canonical: Seq<char>,
)
    ensures
        aliases_replaced(value, a + b, canonical) == aliases_replaced(
            aliases_replaced(value, a, canonical),
            b,
            canonical,
        ),
    decreases b.len(),
{
    if b.len() == 0 {
        assert(a + b =~= a);
    } else {
        assert((a + b).drop_last() =~= a + b.drop_last());
        aliases_apply_in_sequence(value, a, b.drop_last(), canonical);
    }
}

/// A list of one alias replaces that word.
pub proof fn one_alias_replaces_its_word(
    value: Seq<char>,
    alias: Seq<char>,
    canonical: Seq<char>,
)
    ensures
        aliases_replaced(value, seq![alias], canonical) == word_replaced(value, alias, canonical),
{
    reveal_with_fuel(aliases_replaced, 2);
    assert(seq![alias].drop_last() =~= Seq::empty());
}

proof fn lemma_aliases_leave(value: Seq<char>, aliases: Seq<Seq<char>>, canonical: Seq<char>)
    requires
        forall|j: int, i: int|
            0 <= j < aliases.len() ==> !#[trigger] stands_alone(value, aliases[j], i),
    ensures
        aliases_replaced(value, aliases, canonical) == value,
    decreases aliases.len(),
{
    if aliases.len() > 0 {
        let shorter = aliases.drop_last();
        assert forall|j: int, i: int| 0 <= j < shorter.len() implies !#[trigger] stands_alone(
            value,
            shorter[j],
            i,
        ) by {
            assert(shorter[j] == aliases[j]);
            assert(!stands_alone(value, aliases[j], i));
        }
        lemma_aliases_leave(value, shorter, canonical);
        let last = aliases.len() - 1;
        assert(aliases.last() == aliases[last]);
        assert forall|i: int| !#[trigger] stands_alone(value, aliases.last(), i) by {
            assert(!stands_alone(value, aliases[last], i));
        }
        words_inside_others_stay(value, aliases.last(), canonical);
    }
}

proof fn lemma_one_of_the_aliases(
    left: Seq<char>,
    written: Seq<char>,
    right: Seq<char>,
    aliases: Seq<Seq<char>>,
    canonical: Seq<char>,
    k: int,
)
    requires
        misheard_there(left, written, right, aliases, canonical, k),
    ensures
        aliases_replaced(left + written + right, aliases, canonical) == left + canonical + right,
    decreases aliases.len(),
{
    let text = left + written + right;
    let fixed = left + canonical + right;
    let alias = aliases[k];
    let first = choose|first: int|
        0 <= first <= k && lowercase(aliases[first]) == lowercase(alias) && (forall|j: int|
            0 <= j < first ==> lowercase(#[trigger] aliases[j]) != lowercase(alias));
    lemma_first_of_its_kind(aliases, k);
    let early = aliases.take(first);
    let late = aliases.skip(first + 1);
    let chosen = aliases[first];
    assert(aliases =~= (early + seq![chosen]) + late);
    aliases_apply_in_sequence(text, early + seq![chosen], late, canonical);
    aliases_apply_in_sequence(text, early, seq![chosen], canonical);
    assert forall|j: int, i: int| 0 <= j < early.len() implies !#[trigger] stands_alone(
        text,
        early[j],
        i,
    ) by {
        assert(early[j] == aliases[j]);
        assert(!stands_alone(text, aliases[j], i) || lowercase(aliases[j]) == lowercase(alias));
    }
    lemma_aliases_leave(text, early, canonical);
    one_alias_replaces_its_word(text, chosen, canonical);
    lemma_same_word(text, alias, chosen, left.len() as int);
    a_word_that_stands_alone_is_replaced(left, written, right, chosen, canonical);
    assert forall|j: int, i: int| 0 <= j < late.len() implies !#[trigger] stands_alone(
        fixed,
        late[j],
        i,
    ) by {
        assert(late[j] == aliases[first + 1 + j]);
        assert(!stands_alone(fixed, aliases[first + 1 + j], i));
    }
    lemma_aliases_leave(fixed, late, canonical);
}

proof fn lemma_first_of_its_kind(aliases: Seq<Seq<char>>, k: int)
    requires
        0 <= k < aliases.len(),
    ensures
        exists|first: int|
            0 <= first <= k && lowercase(aliases[first]) == lowercase(aliases[k]) && (forall|j: int|
                0 <= j < first ==> lowercase(#[trigger] aliases[j]) != lowercase(aliases[k])),
    decreases k,
{
    if exists|j: int| 0 <= j < k && lowercase(#[trigger] aliases[j]) == lowercase(aliases[k]) {
        let j = choose|j: int|
            0 <= j < k && lowercase(#[trigger] aliases[j]) == lowercase(aliases[k]);
        lemma_first_of_its_kind(aliases, j);
    } else {
        assert(lowercase(aliases[k]) == lowercase(aliases[k]));
    }
}

proof fn lemma_same_word(text: Seq<char>, a: Seq<char>, b: Seq<char>, at: int)
    requires
        lowercase(a) == lowercase(b),
        only_there(text, a, at),
        all_ascii(a),
    ensures
        only_there(text, b, at),
        a.len() == b.len(),
        all_ascii(b),
{
    assert(lowercase(a).len() == a.len() && lowercase(b).len() == b.len());
    assert(stands_alone(text, b, at)) by {
        assert(stands_alone(text, a, at));
    }
    assert forall|i: int| i != at implies !#[trigger] stands_alone(text, b, i) by {
        assert(!stands_alone(text, a, i));
    }
    assert forall|i: int| 0 <= i < b.len() implies (#[trigger] b[i]) as u32 <= 0x7F by {
        assert(lowercase(a)[i] == lowercase(b)[i]);
        assert(a[i] as u32 <= 0x7F);
        lemma_lower_char(a[i]);
        lemma_lower_char(b[i]);
        assert(lowercase(a)[i] == lower_char(a[i]));
        assert(lowercase(b)[i] == lower_char(b[i]));
        assert(is_ascii_upper(b[i]) ==> b[i] as u32 <= 0x5A);
        assert(is_ascii_lower(lower_char(a[i])) ==> lower_char(a[i]) as u32 <= 0x7A);
    }
}

/// One of the aliases stands alone between `left` and `right`, and no alias stands
/// alone anywhere else, neither as things are nor with the canonical spelling in
/// its place.
pub open spec fn misheard_there(
    left: Seq<char>,
    written: Seq<char>,
    right: Seq<char>,
    aliases: Seq<Seq<char>>,
    canonical: Seq<char>,
    k: int,
) -> bool {
    let text = left + written + right;
    &&& 0 <= k < aliases.len()
    &&& aliases[k].len() > 0
    &&& all_ascii(aliases[k])
    &&& lowercase(written) == lowercase(aliases[k])
    &&& only_there(text, aliases[k], left.len() as int)
    &&& forall|j: int, i: int|
        0 <= j < aliases.len() && #[trigger] stands_alone(text, aliases[j], i) ==> lowercase(
            aliases[j],
        ) == lowercase(aliases[k])
    &&& forall|j: int, i: int|
        0 <= j < aliases.len() ==> !#[trigger] stands_alone(
            left + canonical + right,
            aliases[j],
            i,
        )
}

/// Where the context speaks for the entity, a misheard word becomes its canonical
/// spelling, whatever place the misheard form has among the aliases.
pub proof fn a_misheard_word_becomes_the_entity(
    left: Seq<char>,
    written: Seq<char>,
    right: Seq<char>,
    rule: EntityRuleView,
    k: int,
)
    requires
        misheard_there(left, written, right, rule.aliases, rule.canonical, k),
        score(left + written + right, rule.entity_context) > score(
            left + written + right,
            rule.ordinary_context,
        ),
    ensures
        resolved_by(left + written + right, rule) == left + rule.canonical + right,
        resolved(left + written + right, seq![rule]) == left + rule.canonical + right,
{
    lemma_one_of_the_aliases(left, written, right, rule.aliases, rule.canonical, k);
    reveal_with_fuel(resolved, 2);
    assert(seq![rule].drop_last() =~= Seq::empty());
}

/// Where the context speaks for the ordinary word, the entity's name becomes the
/// first of its aliases.
pub proof fn an_over_eager_name_becomes_the_ordinary_word(
    left: Seq<char>,
    written: Seq<char>,
    right: Seq<char>,
    rule: EntityRuleView,
)
    requires
        rule.aliases.len() > 0,
        rule.canonical.len() > 0,
        all_ascii(rule.canonical),
        lowercase(written) == lowercase(rule.canonical),
        only_there(left + written + right, rule.canonical, left.len() as int),
        score(left + written + right, rule.ordinary_context) > score(
            left + written + right,
            rule.entity_context,
        ),
    ensures
        resolved_by(left + written + right, rule) == left + rule.aliases[0] + right,
        resolved(left + written + right, seq![rule]) == left + rule.aliases[0] + right,
{
    a_word_that_stands_alone_is_replaced(left, written, right, rule.canonical, rule.aliases[0]);
    reveal_with_fuel(resolved, 2);
    assert(seq![rule].drop_last() =~= Seq::empty());
}

/// Every cue counts once if it is found, in any case, and not otherwise.
pub proof fn cues_are_counted(text: Seq<char>, cues: Seq<Seq<char>>, cue: Seq<char>)
    ensures
        score(text, Seq::empty()) == 0,
        score(text, cues.push(cue)) == score(text, cues) + (if exists|i: int|
            occurs_at(lowercase(text), lowercase(cue), i) {
            1int
        } else {
            0
        }),
{
    reveal(Seq::filter);
    assert(cues.push(cue).drop_last() =~= cues);
    assert(contains(lowercase(text), lowercase(cue)) == exists|i: int|
        occurs_at(lowercase(text), lowercase(cue), i));
}

/// A list of terms is its parts, each trimmed, cut and left out if blank.
pub proof fn terms_are_read_one_by_one(first: Seq<char>, rest: Seq<char>)
    requires
        !first.contains(','),
    ensures
        terms_of(first.push(',') + rest) == terms_of(first) + terms_of(rest),
        terms_of(first) == (if trim(first).len() == 0 {
            Seq::empty()
        } else {
            seq![head(trim(first), 80)]
        }),
{
    let class = CharClass::Only(',');
    splitting_at_a_separator(first, ',', rest, class);
    assert forall|i: int| 0 <= i < first.len() implies !class.has(#[trigger] first[i]) by {
        assert(first.contains(first[i]));
    }
    a_text_without_separators_is_one_piece(first, class);
    let a = split(first, class);
    let b = split(rest, class);
    assert(all_trimmed(a + b) =~= all_trimmed(a) + all_trimmed(b));
    Seq::filter_distributes_over_add(all_trimmed(a), all_trimmed(b), nonempty());
    assert(all_cut(all_trimmed(a).filter(nonempty()) + all_trimmed(b).filter(nonempty()))
        =~= terms_of(first) + terms_of(rest));
    assert(all_trimmed(a) =~= seq![trim(first)]);
    lemma_filter_one(trim(first), nonempty());
    if trim(first).len() == 0 {
        assert(terms_of(first) =~= Seq::empty());
    } else {
        assert(terms_of(first) =~= seq![head(trim(first), 80)]);
    }
}

/// A line of a hotword file is a term, trimmed and cut, unless it is blank or a
/// comment.
pub proof fn hotwords_are_read_line_by_line(line: Seq<char>)
    requires
        !line.contains('\n'),
    ensures
        vocabulary_of(line) == (if trim(line).len() == 0 || trim(line)[0] == '#' {
            Seq::empty()
        } else {
            seq![head(trim(line), 80)]
        }),
{
    lemma_single_line(line);
    assert(vocabulary_of(line) =~= (if trim(line).len() == 0 || trim(line)[0] == '#' {
        Seq::empty()
    } else {
        seq![head(trim(line), 80)]
    }));
}

proof fn lemma_single_line(line: Seq<char>)
    requires
        !line.contains('\n'),
    ensures
        meaningful_lines(line) == (if trim(line).len() == 0 || trim(line)[0] == '#' {
            Seq::empty()
        } else {
            seq![trim(line)]
        }),
{
    let class = CharClass::Only('\n');
    assert forall|i: int| 0 <= i < line.len() implies !class.has(#[trigger] line[i]) by {
        assert(line.contains(line[i]));
    }
    a_text_without_separators_is_one_piece(line, class);
    assert(all_trimmed(split(line, class)) =~= seq![trim(line)]);
    lemma_filter_one(trim(line), meaningful());
}

/// A rule file made of two, one under the other, holds the rules of the first and
/// then those of the second.
pub proof fn rule_files_can_be_joined(a: Seq<char>, b: Seq<char>)
    ensures
        rules_of(a.push('\n') + b) == rules_of(a) + rules_of(b),
{
    splitting_joined_text(a, '\n', b);
    let first = split(a, CharClass::Only('\n'));
    let second = split(b, CharClass::Only('\n'));
    assert(all_trimmed(first + second) =~= all_trimmed(first) + all_trimmed(second));
    Seq::filter_distributes_over_add(all_trimmed(first), all_trimmed(second), meaningful());
    lemma_filter_map_add(meaningful_lines(a), meaningful_lines(b));
}

proof fn lemma_filter_map_add(a: Seq<Seq<char>>, b: Seq<Seq<char>>)
    ensures
        (a + b).filter_map(rule_parser()) == a.filter_map(rule_parser()) + b.filter_map(
            rule_parser(),
        ),
    decreases b.len(),
{
    if b.len() == 0 {
        assert(a + b =~= a);
        assert(b.filter_map(rule_parser()) =~= Seq::empty());
        assert(a.filter_map(rule_parser()) + Seq::empty() =~= a.filter_map(rule_parser()));
    } else {
        assert((a + b).drop_last() =~= a + b.drop_last());
        lemma_filter_map_add(a, b.drop_last());
        assert((a + b).last() == b.last());
        assert((a + b).filter_map(rule_parser()) =~= a.filter_map(rule_parser()) + b.filter_map(
            rule_parser(),
        ));
    }
}

/// A line with four fields between tabs is a rule: its name, its aliases, its cues
/// and those of the ordinary word, in this order. Without a name or an alias it is
/// none.
pub proof fn a_rule_is_read_field_by_field(
    name: Seq<char>,
    aliases: Seq<char>,
    entity: Seq<char>,
    ordinary: Seq<char>,
)
    requires
        !name.contains('\t'),
        !aliases.contains('\t'),
        !entity.contains('\t'),
        !ordinary.contains('\t'),
    ensures
        ({
            let line = name.push('\t') + (aliases.push('\t') + (entity.push('\t') + ordinary));
            match rule_of(line) {
                Some(rule) => {
                    &&& trim(name).len() > 0 && terms_of(aliases).len() > 0
                    &&& rule.canonical == head(trim(name), 80)
                    &&& rule.aliases == terms_of(aliases)
                    &&& rule.entity_context == terms_of(entity)
                    &&& rule.ordinary_context == terms_of(ordinary)
                },
                None => trim(name).len() == 0 || terms_of(aliases).len() == 0,
            }
        }),
{
    let class = CharClass::Only('\t');
    let third = entity.push('\t') + ordinary;
    let second = aliases.push('\t') + third;
    splitting_at_a_separator(name, '\t', second, class);
    splitting_at_a_separator(aliases, '\t', third, class);
    splitting_at_a_separator(entity, '\t', ordinary, class);
    lemma_field(name);
    lemma_field(aliases);
    lemma_field(entity);
    lemma_field(ordinary);
    assert(split(name.push('\t') + second, class) =~= seq![name, aliases, entity, ordinary]);
}

proof fn lemma_field(field: Seq<char>)
    requires
        !field.contains('\t'),
    ensures
        split(field, CharClass::Only('\t')) == seq![field],
{
    assert forall|i: int| 0 <= i < field.len() implies !CharClass::Only('\t').has(
        #[trigger] field[i],
    ) by {
        assert(field.contains(field[i]));
    }
    a_text_without_separators_is_one_piece(field, CharClass::Only('\t'));
}

/// Entries that differ in case or surrounding white space alone count as one, and
/// the first stays; any others both stay.
pub proof fn spellings_of_one_entry_count_as_one(a: Seq<char>, b: Seq<char>)
    ensures
        deduplicated(seq![a, b]) == (if lowercase(trim(a)) == lowercase(trim(b)) {
            seq![a]
        } else {
            seq![a, b]
        }),
{
    reveal_with_fuel(deduplicated, 3);
    let both = seq![a, b];
    assert(both.drop_last() =~= seq![a]);
    assert(seq![a].drop_last() =~= Seq::empty());
    assert(deduplicated(seq![a]) =~= seq![a]);
    assert(entry_keys(seq![a]).contains(lowercase(trim(a)))) by {
        assert(entry_key(seq![a][0]) == lowercase(trim(a)));
    }
    if lowercase(trim(a)) != lowercase(trim(b)) {
        assert(!entry_keys(seq![a]).contains(lowercase(trim(b))));
        assert(deduplicated(both) =~= both);
    }
}

/// Where the limit allows it, every listed file is read.
pub proof fn every_listed_file_is_read(names: Seq<Seq<u8>>, rules_only: bool, name: Seq<u8>)
    requires
        names.len() <= 32,
        names.contains(name),
        has_suffix(name, encode_utf8(".tsv"@)) || (!rules_only && has_suffix(
            name,
            encode_utf8(".txt"@),
        )),
    ensures
        selected_files(names, rules_only).contains(name),
{
    let wanted = is_listed(rules_only);
    let listed = names.filter(wanted);
    let sorted = listed.sort_by(byte_order());
    crate::files::byte_order_is_total();
    listed.lemma_sort_by_ensures(byte_order());
    let at = choose|at: int| 0 <= at < names.len() && names[at] == name;
    names.lemma_filter_contains(wanted, at);
    lemma_filter_len(names, wanted);
    assert(listed.to_multiset().len() == listed.len()) by {
        vstd::seq_lib::to_multiset_len(listed);
    }
    assert(sorted.to_multiset().len() == sorted.len()) by {
        vstd::seq_lib::to_multiset_len(sorted);
    }
    vstd::seq_lib::to_multiset_contains(listed, name);
    vstd::seq_lib::to_multiset_contains(sorted, name);
}

proof fn lemma_filter_len(names: Seq<Seq<u8>>, wanted: spec_fn(Seq<u8>) -> bool)
    ensures
        names.filter(wanted).len() <= names.len(),
    decreases names.len(),
{
    reveal(Seq::filter);
    if names.len() > 0 {
        lemma_filter_len(names.drop_last(), wanted);
    }
}

/// A directory with one hotword file brings its terms; one with one rule file
/// brings the names of its entities, each behind an `@`.
pub proof fn a_file_brings_its_entries(file: VocabularyFileView, content: Seq<char>)
    requires
        file.metadata matches Some(known) && known.is_file && known.length <= 262_144,
        file.content == Some(content),
    ensures
        has_suffix(file.name, encode_utf8(".txt"@)) ==> directory_entries(seq![file])
            == vocabulary_of(content),
        has_suffix(file.name, encode_utf8(".tsv"@)) && !has_suffix(
            file.name,
            encode_utf8(".txt"@),
        ) ==> {
            &&& directory_entries(seq![file]).len() == rules_of(content).len()
            &&& forall|i: int|
                0 <= i < rules_of(content).len() ==> #[trigger] directory_entries(seq![file])[i]
                    == seq!['@'] + rules_of(content)[i].canonical
        },
        forall|value: Seq<char>|
            has_suffix(file.name, encode_utf8(".tsv"@)) ==> #[trigger] resolved_in(
                value,
                seq![file],
            ) == resolved(value, rules_of(content)),
{
    let files = seq![file];
    let names = names_of(files);
    assert(names =~= seq![file.name]);
    assert(text_named(files, file.name) == Some(content));
    lemma_one_name(file.name, false);
    lemma_one_name(file.name, true);
    reveal_with_fuel(entries_from, 2);
    reveal_with_fuel(resolved_from, 2);
    assert(names.drop_last() =~= Seq::empty());
    if is_listed(false)(file.name) {
        assert(directory_entries(files) =~= entries_of(file.name, Some(content)));
    }
}

proof fn lemma_one_name(name: Seq<u8>, rules_only: bool)
    ensures
        is_listed(rules_only)(name) ==> selected_files(seq![name], rules_only) == seq![name],
{
    if is_listed(rules_only)(name) {
        file_selection_is_bounded(seq![name], rules_only);
        let selected = selected_files(seq![name], rules_only);
        let listed = seq![name].filter(is_listed(rules_only));
        lemma_filter_one(name, is_listed(rules_only));
        crate::files::byte_order_is_total();
        listed.lemma_sort_by_ensures(byte_order());
        vstd::seq_lib::to_multiset_len(listed);
        vstd::seq_lib::to_multiset_len(listed.sort_by(byte_order()));
        assert(selected.len() == 1);
        assert(seq![name].contains(selected[0]));
        assert(selected =~= seq![name]);
    }
}

/// Among more files than are read, those that come first in byte order are.
pub proof fn the_first_files_are_read(
    names: Seq<Seq<u8>>,
    rules_only: bool,
    left_out: Seq<u8>,
    i: int,
)
    requires
        names.contains(left_out),
        is_rules_file(left_out) || (!rules_only && is_terms_file(left_out)),
        !selected_files(names, rules_only).contains(left_out),
        0 <= i < selected_files(names, rules_only).len(),
    ensures
        bytes_at_most(selected_files(names, rules_only)[i], left_out),
        selected_files(names, rules_only).len() == 32,
{
    let wanted = is_listed(rules_only);
    let listed = names.filter(wanted);
    let sorted = listed.sort_by(byte_order());
    let selected = selected_files(names, rules_only);
    crate::files::byte_order_is_total();
    listed.lemma_sort_by_ensures(byte_order());
    let at = choose|at: int| 0 <= at < names.len() && names[at] == left_out;
    names.lemma_filter_contains(wanted, at);
    vstd::seq_lib::to_multiset_contains(listed, left_out);
    vstd::seq_lib::to_multiset_contains(sorted, left_out);
    let j = choose|j: int| 0 <= j < sorted.len() && sorted[j] == left_out;
    if j < selected.len() {
        assert(selected[j] == left_out);
    }
    assert(selected[i] == sorted[i]);
    assert(byte_order()(sorted[i], sorted[j]));
}

/// A file that is missing, no regular file, longer than 262144 bytes or unreadable
/// brings nothing.
pub proof fn unreadable_files_bring_nothing(file: VocabularyFileView, value: Seq<char>)
    requires
        file.content is None || file.metadata is None || !file.metadata->0.is_file
            || file.metadata->0.length > 262_144,
    ensures
        directory_entries(seq![file]).len() == 0,
        resolved_in(value, seq![file]) == value,
{
    let files = seq![file];
    assert(names_of(files) =~= seq![file.name]);
    assert(text_named(files, file.name) is None);
    reveal_with_fuel(entries_from, 2);
    reveal_with_fuel(resolved_from, 2);
    lemma_one_name(file.name, false);
    lemma_one_name(file.name, true);
    assert(seq![file.name].drop_last() =~= Seq::empty());
    lemma_no_name(file.name, false);
    lemma_no_name(file.name, true);
}

proof fn lemma_no_name(name: Seq<u8>, rules_only: bool)
    ensures
        !is_listed(rules_only)(name) ==> selected_files(seq![name], rules_only).len() == 0,
{
    if !is_listed(rules_only)(name) {
        file_selection_is_bounded(seq![name], rules_only);
        let selected = selected_files(seq![name], rules_only);
        if selected.len() > 0 {
            assert(seq![name].contains(selected[0]));
        }
    }
}

/// The files of a directory take their turn: what several bring is what one after
/// another brings.
pub proof fn files_apply_in_sequence(
    value: Seq<char>,
    files: Seq<VocabularyFileView>,
    a: Seq<Seq<u8>>,
    b: Seq<Seq<u8>>,
)
    ensures
        entries_from(files, a + b) == entries_from(files, a) + entries_from(files, b),
        resolved_from(value, files, a + b) == resolved_from(
            resolved_from(value, files, a),
            files,
            b,
        ),
    decreases b.len(),
{
    if b.len() == 0 {
        assert(a + b =~= a);
        assert(entries_from(files, a) + entries_from(files, b) =~= entries_from(files, a));
    } else {
        assert((a + b).drop_last() =~= a + b.drop_last());
        files_apply_in_sequence(value, files, a, b.drop_last());
        assert(entries_from(files, a + b) =~= entries_from(files, a) + entries_from(files, b));
    }
}

/// The directories take their turn in the same way.
pub proof fn directories_apply_in_sequence(
    value: Seq<char>,
    a: Seq<Seq<VocabularyFileView>>,
    b: Seq<Seq<VocabularyFileView>>,
    directory: Seq<VocabularyFileView>,
)
    ensures
        all_entries(a + b) == all_entries(a) + all_entries(b),
        resolved_everywhere(value, a + b) == resolved_everywhere(resolved_everywhere(value, a), b),
        all_entries(seq![directory]) == directory_entries(directory),
        resolved_everywhere(value, seq![directory]) == resolved_in(value, directory),
        all_entries(Seq::empty()).len() == 0,
        resolved_everywhere(value, Seq::empty()) == value,
    decreases b.len(),
{
    if b.len() == 0 {
        assert(a + b =~= a);
        assert(all_entries(a) + all_entries(b) =~= all_entries(a));
    } else {
        assert((a + b).drop_last() =~= a + b.drop_last());
        directories_apply_in_sequence(value, a, b.drop_last(), directory);
        assert(all_entries(a + b) =~= all_entries(a) + all_entries(b));
    }
    reveal_with_fuel(all_entries, 2);
    reveal_with_fuel(resolved_everywhere, 2);
    assert(seq![directory].drop_last() =~= Seq::empty());
    assert(all_entries(seq![directory]) =~= directory_entries(directory));
}

/// The text of a file is found by its name among others.
pub proof fn files_are_found_by_name(
    before: Seq<VocabularyFileView>,
    file: VocabularyFileView,
    after: Seq<VocabularyFileView>,
    content: Seq<char>,
)
    requires
        forall|i: int| 0 <= i < before.len() ==> (#[trigger] before[i]).name != file.name,
        file.metadata matches Some(known) && known.is_file && known.length <= 262_144,
        file.content == Some(content),
    ensures
        text_named(before + seq![file] + after, file.name) == Some(content),
    decreases before.len(),
{
    let all = before + seq![file] + after;
    if before.len() == 0 {
        assert(all[0] == file);
    } else {
        let rest = before.drop_first();
        assert(all[0] == before[0]);
        assert(all.drop_first() =~= rest + seq![file] + after);
        assert forall|i: int| 0 <= i < rest.len() implies (#[trigger] rest[i]).name != file.name by {
            assert(rest[i] == before[i + 1]);
        }
        files_are_found_by_name(rest, file, after, content);
    }
}

/// A line of a rule file is read without the white space around it, and not at all
/// if it is blank or a comment.
pub proof fn rules_are_read_line_by_line(line: Seq<char>)
    requires
        !line.contains('\n'),
    ensures
        rules_of(line) == (if trim(line).len() == 0 || trim(line)[0] == '#' {
            Seq::empty()
        } else {
            match rule_of(trim(line)) {
                Some(rule) => seq![rule],
                None => Seq::empty(),
            }
        }),
{
    lemma_single_line(line);
    let lines = meaningful_lines(line);
    if lines.len() > 0 {
        assert(lines.drop_last() =~= Seq::empty());
        reveal_with_fuel(Seq::filter_map, 2);
        assert(rules_of(line) =~= (match rule_of(trim(line)) {
            Some(rule) => seq![rule],
            None => Seq::empty(),
        }));
    } else {
        assert(rules_of(line) =~= Seq::empty());
    }
}

/// A line with fewer than four fields is no rule, and what stands behind the
/// fourth is not read.
pub proof fn rules_have_four_fields(
    name: Seq<char>,
    aliases: Seq<char>,
    entity: Seq<char>,
    ordinary: Seq<char>,
    more: Seq<char>,
)
    requires
        !name.contains('\t'),
        !aliases.contains('\t'),
        !entity.contains('\t'),
        !ordinary.contains('\t'),
    ensures
        rule_of(name) is None,
        rule_of(name.push('\t') + aliases) is None,
        rule_of(name.push('\t') + (aliases.push('\t') + entity)) is None,
        rule_of(
            name.push('\t') + (aliases.push('\t') + (entity.push('\t') + (ordinary.push('\t')
                + more))),
        ) == rule_of(name.push('\t') + (aliases.push('\t') + (entity.push('\t') + ordinary))),
{
    let class = CharClass::Only('\t');
    let last = ordinary.push('\t') + more;
    let third = entity.push('\t') + ordinary;
    let long = entity.push('\t') + last;
    lemma_field(name);
    lemma_field(aliases);
    lemma_field(entity);
    lemma_field(ordinary);
    splitting_at_a_separator(name, '\t', aliases, class);
    splitting_at_a_separator(aliases, '\t', entity, class);
    splitting_at_a_separator(name, '\t', aliases.push('\t') + entity, class);
    splitting_at_a_separator(entity, '\t', ordinary, class);
    splitting_at_a_separator(aliases, '\t', third, class);
    splitting_at_a_separator(name, '\t', aliases.push('\t') + third, class);
    splitting_at_a_separator(ordinary, '\t', more, class);
    splitting_at_a_separator(entity, '\t', last, class);
    splitting_at_a_separator(aliases, '\t', long, class);
    splitting_at_a_separator(name, '\t', aliases.push('\t') + long, class);
    let short_fields = split(name.push('\t') + (aliases.push('\t') + third), class);
    let long_fields = split(name.push('\t') + (aliases.push('\t') + long), class);
    assert(short_fields =~= seq![name, aliases, entity, ordinary]);
    assert(long_fields =~= seq![name, aliases, entity, ordinary] + split(more, class));
}

/// Only ASCII words are replaced, and nothing is put in the place of no word.
pub proof fn only_ascii_words_are_replaced(
    value: Seq<char>,
    needle: Seq<char>,
    replacement: Seq<char>,
)
    requires
        needle.len() == 0 || exists|i: int|
            0 <= i < needle.len() && (#[trigger] needle[i]) as u32 > 0x7F,
    ensures
        word_replaced(value, needle, replacement) == value,
{
}

} // verus!
