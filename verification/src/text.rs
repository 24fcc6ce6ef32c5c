//! Text as sequences of characters: classification, trimming, searching,
//! splitting and replacing.
//!
//! Strings are handled one Unicode scalar value at a time, so no operation of
//! this module can cut a character in two.
use vstd::prelude::*;
use vstd::slice::slice_subrange;
use vstd::utf8::encode_utf8;

verus! {

/// `std::string::String::push` appends one character at the end of the string.
pub assume_specification[ std::string::String::push ](s: &mut String, c: char)
    ensures
        final(s)@ == old(s)@.push(c),
;

/// Characters with the Unicode property `White_Space`.
pub open spec fn is_white_space(c: char) -> bool {
    ||| 0x09 <= c as u32 <= 0x0D
    ||| c as u32 == 0x20
    ||| c as u32 == 0x85
    ||| c as u32 == 0xA0
    ||| c as u32 == 0x1680
    ||| 0x2000 <= c as u32 <= 0x200A
    ||| 0x2028 <= c as u32 <= 0x2029
    ||| c as u32 == 0x202F
    ||| c as u32 == 0x205F
    ||| c as u32 == 0x3000
}

/// Characters of the general category `Cc`.
pub open spec fn is_control(c: char) -> bool {
    c as u32 <= 0x1F || 0x7F <= c as u32 <= 0x9F
}

/// `A` to `Z`.
pub open spec fn is_ascii_upper(c: char) -> bool {
    'A' <= c && c <= 'Z'
}

/// `a` to `z`.
pub open spec fn is_ascii_lower(c: char) -> bool {
    'a' <= c && c <= 'z'
}

/// `0` to `9`.
pub open spec fn is_ascii_digit(c: char) -> bool {
    '0' <= c && c <= '9'
}

/// ASCII letters and digits.
pub open spec fn is_ascii_alphanumeric(c: char) -> bool {
    is_ascii_upper(c) || is_ascii_lower(c) || is_ascii_digit(c)
}

/// The punctuation that identifiers, versions and paths are made of.
pub open spec fn is_token_mark(c: char) -> bool {
    c == '_' || c == '-' || c == '+' || c == '.' || c == '/'
}

/// All characters of `s` are ASCII.
pub open spec fn all_ascii(s: Seq<char>) -> bool {
    forall|i: int| 0 <= i < s.len() ==> (#[trigger] s[i]) as u32 <= 0x7F
}

/// `c` with an ASCII capital turned into its small letter.
pub open spec fn lower_char(c: char) -> char {
    if is_ascii_upper(c) {
        (c as u32 + 0x20) as char
    } else {
        c
    }
}

/// `s` with every ASCII capital turned into its small letter.
pub open spec fn lowercase(s: Seq<char>) -> Seq<char> {
    Seq::new(s.len(), |i: int| lower_char(s[i]))
}

/// Number of bytes of `c` in UTF-8.
pub open spec fn char_width(c: char) -> nat {
    if c as u32 <= 0x7F {
        1
    } else if c as u32 <= 0x7FF {
        2
    } else if c as u32 <= 0xFFFF {
        3
    } else {
        4
    }
}

/// Number of bytes of `s` in UTF-8.
pub open spec fn byte_len(s: Seq<char>) -> nat
    decreases s.len(),
{
    if s.len() == 0 {
        0
    } else {
        byte_len(s.drop_last()) + char_width(s.last())
    }
}

/// A set of characters at which text is split or from which it is stripped.
pub enum CharClass {
    /// Unicode white space.
    WhiteSpace,
    /// One character alone.
    Only(char),
    /// Everything that cannot stand inside a technical token.
    OutsideToken,
}

impl CharClass {
    /// `c` belongs to the class.
    pub open spec fn has(self, c: char) -> bool {
        match self {
            CharClass::WhiteSpace => is_white_space(c),
            CharClass::Only(only) => c == only,
            CharClass::OutsideToken => !is_ascii_alphanumeric(c) && !is_token_mark(c),
        }
    }

    /// Whether `c` belongs to the class.
    pub fn includes(&self, c: char) -> (r: bool)
        ensures
            r == self.has(c),
    {
        match self {
            CharClass::WhiteSpace => white_space(c),
            CharClass::Only(only) => c == *only,
            CharClass::OutsideToken => !ascii_alphanumeric(c) && !token_mark(c),
        }
    }
}

/// `s` without the longest prefix made of characters of `class`.
pub open spec fn strip_start(s: Seq<char>, class: CharClass) -> Seq<char>
    decreases s.len(),
{
    if s.len() > 0 && class.has(s[0]) {
        strip_start(s.drop_first(), class)
    } else {
        s
    }
}

/// `s` without the longest suffix made of characters of `class`.
pub open spec fn strip_end(s: Seq<char>, class: CharClass) -> Seq<char>
    decreases s.len(),
{
    if s.len() > 0 && class.has(s.last()) {
        strip_end(s.drop_last(), class)
    } else {
        s
    }
}

/// `s` without leading and trailing white space.
pub open spec fn trim(s: Seq<char>) -> Seq<char> {
    strip_end(strip_start(s, CharClass::WhiteSpace), CharClass::WhiteSpace)
}

/// The first `n` characters of `s`, or all of it when it is shorter.
pub open spec fn head(s: Seq<char>, n: nat) -> Seq<char> {
    if s.len() <= n {
        s
    } else {
        s.take(n as int)
    }
}

/// The last `n` characters of `s`, or all of it when it is shorter.
pub open spec fn tail(s: Seq<char>, n: nat) -> Seq<char> {
    if s.len() <= n {
        s
    } else {
        s.skip(s.len() - n)
    }
}

/// `pattern` stands in `s` at position `i`.
pub open spec fn occurs_at(s: Seq<char>, pattern: Seq<char>, i: int) -> bool {
    0 <= i && i + pattern.len() <= s.len() && s.subrange(i, i + pattern.len()) == pattern
}

/// `pattern` stands somewhere in `s`.
pub open spec fn contains(s: Seq<char>, pattern: Seq<char>) -> bool {
    exists|i: int| occurs_at(s, pattern, i)
}

/// `i` is the leftmost position at which `pattern` stands in `s`.
pub open spec fn first_occurrence(s: Seq<char>, pattern: Seq<char>, i: int) -> bool {
    occurs_at(s, pattern, i) && forall|j: int| 0 <= j < i ==> !occurs_at(s, pattern, j)
}

/// What stands before and after the leftmost `separator` in `s`.
pub open spec fn split_once(s: Seq<char>, separator: Seq<char>) -> Option<(Seq<char>, Seq<char>)> {
    if contains(s, separator) {
        let i = choose|i: int| first_occurrence(s, separator, i);
        Some((s.take(i), s.skip(i + separator.len())))
    } else {
        None
    }
}

/// What is left of `s` from position `i` on once every `from` is `to`: the
/// occurrences are found from left to right and do not overlap.
pub open spec fn replaced_from(s: Seq<char>, from: Seq<char>, to: Seq<char>, i: int) -> Seq<char>
    decreases s.len() - i,
{
    if i < 0 || i >= s.len() || from.len() == 0 {
        s.skip(i)
    } else if occurs_at(s, from, i) {
        to + replaced_from(s, from, to, i + from.len())
    } else {
        seq![s[i]] + replaced_from(s, from, to, i + 1)
    }
}

/// `s` with every `from` replaced by `to`, from left to right.
pub open spec fn replaced(s: Seq<char>, from: Seq<char>, to: Seq<char>) -> Seq<char> {
    replaced_from(s, from, to, 0)
}

/// The pieces of `s` between the characters of `class`: one more piece than
/// there are such characters, empty pieces kept.
pub open spec fn split(s: Seq<char>, class: CharClass) -> Seq<Seq<char>>
    decreases s.len(),
{
    if s.len() == 0 {
        seq![Seq::<char>::empty()]
    } else {
        let before = split(s.drop_last(), class);
        if class.has(s.last()) {
            before.push(Seq::<char>::empty())
        } else {
            before.drop_last().push(before.last().push(s.last()))
        }
    }
}

/// The pieces one after another, with `separator` between neighbours.
pub open spec fn joined(pieces: Seq<Seq<char>>, separator: Seq<char>) -> Seq<char>
    decreases pieces.len(),
{
    if pieces.len() == 0 {
        Seq::<char>::empty()
    } else if pieces.len() == 1 {
        pieces[0]
    } else {
        joined(pieces.drop_last(), separator) + separator + pieces.last()
    }
}

/// The characters of each string.
pub open spec fn views(strings: Seq<String>) -> Seq<Seq<char>> {
    Seq::new(strings.len(), |i: int| strings[i]@)
}

/// The characters held by each vector.
pub open spec fn piece_views(pieces: Seq<Vec<char>>) -> Seq<Seq<char>> {
    Seq::new(pieces.len(), |i: int| pieces[i]@)
}

/// The characters of an optional string.
pub open spec fn option_view(s: Option<String>) -> Option<Seq<char>> {
    match s {
        Some(s) => Some(s@),
        None => None,
    }
}

/// Whether `c` is Unicode white space.
pub fn white_space(c: char) -> (r: bool)
    ensures
        r == is_white_space(c),
{
    let code: u32 = c as u32;
    (0x09 <= code && code <= 0x0D) || code == 0x20 || code == 0x85 || code == 0xA0 || code == 0x1680
        || (0x2000 <= code && code <= 0x200A) || (0x2028 <= code && code <= 0x2029) || code == 0x202F
        || code == 0x205F || code == 0x3000
}

/// Whether `c` is a control character.
pub fn control(c: char) -> (r: bool)
    ensures
        r == is_control(c),
{
    let code: u32 = c as u32;
    code <= 0x1F || (0x7F <= code && code <= 0x9F)
}

/// Whether `c` is an ASCII capital.
pub fn ascii_upper(c: char) -> (r: bool)
    ensures
        r == is_ascii_upper(c),
{
    'A' <= c && c <= 'Z'
}

/// Whether `c` is an ASCII digit.
pub fn ascii_digit(c: char) -> (r: bool)
    ensures
        r == is_ascii_digit(c),
{
    '0' <= c && c <= '9'
}

/// Whether `c` is an ASCII letter or digit.
pub fn ascii_alphanumeric(c: char) -> (r: bool)
    ensures
        r == is_ascii_alphanumeric(c),
{
    ascii_upper(c) || ('a' <= c && c <= 'z') || ascii_digit(c)
}

/// Whether `c` is one of `_`, `-`, `+`, `.` and `/`.
pub fn token_mark(c: char) -> (r: bool)
    ensures
        r == is_token_mark(c),
{
    c == '_' || c == '-' || c == '+' || c == '.' || c == '/'
}

/// The characters of `s`, in order.
pub fn chars_of(s: &str) -> (r: Vec<char>)
    ensures
        r@ == s@,
{
    let mut r: Vec<char> = Vec::new();
    for c in it: s.chars()
        invariant
            r@ == it.seq().take(it.index()),
    {
        r.push(c);
    }
    r
}

/// The string made of `chars`.
pub fn string_of(chars: &[char]) -> (r: String)
    ensures
        r@ == chars@,
{
    let mut r = String::new();
    let mut i: usize = 0;
    while i < chars.len()
        invariant
            i <= chars.len(),
            r@ == chars@.take(i as int),
        decreases chars.len() - i,
    {
        r.push(chars[i]);
        i += 1;
    }
    r
}

/// Appends `more` to `chars`.
pub fn append(chars: &mut Vec<char>, more: &[char])
    ensures
        final(chars)@ == old(chars)@ + more@,
{
    let mut i: usize = 0;
    while i < more.len()
        invariant
            i <= more.len(),
            chars@ == old(chars)@ + more@.take(i as int),
        decreases more.len() - i,
    {
        chars.push(more[i]);
        i += 1;
    }
}

/// `c` with an ASCII capital turned into its small letter.
pub fn to_lower(c: char) -> (r: char)
    ensures
        r == lower_char(c),
{
    match c {
        'A' => 'a',
        'B' => 'b',
        'C' => 'c',
        'D' => 'd',
        'E' => 'e',
        'F' => 'f',
        'G' => 'g',
        'H' => 'h',
        'I' => 'i',
        'J' => 'j',
        'K' => 'k',
        'L' => 'l',
        'M' => 'm',
        'N' => 'n',
        'O' => 'o',
        'P' => 'p',
        'Q' => 'q',
        'R' => 'r',
        'S' => 's',
        'T' => 't',
        'U' => 'u',
        'V' => 'v',
        'W' => 'w',
        'X' => 'x',
        'Y' => 'y',
        'Z' => 'z',
        other => other,
    }
}

/// `s` with every ASCII capital turned into its small letter.
pub fn lowered(s: &[char]) -> (r: Vec<char>)
    ensures
        r@ == lowercase(s@),
{
    let mut r: Vec<char> = Vec::new();
    let mut i: usize = 0;
    while i < s.len()
        invariant
            i <= s.len(),
            r@.len() == i,
            forall|j: int| 0 <= j < i ==> r@[j] == lower_char(s@[j]),
        decreases s.len() - i,
    {
        r.push(to_lower(s[i]));
        i += 1;
    }
    r
}

/// Whether both hold the same characters.
pub fn same(a: &[char], b: &[char]) -> (r: bool)
    ensures
        r == (a@ == b@),
{
    if a.len() != b.len() {
        return false;
    }
    let mut i: usize = 0;
    while i < a.len()
        invariant
            i <= a.len(),
            a.len() == b.len(),
            forall|j: int| 0 <= j < i ==> a@[j] == b@[j],
        decreases a.len() - i,
    {
        if a[i] != b[i] {
            return false;
        }
        i += 1;
    }
    assert(a@ =~= b@);
    true
}

/// Whether both strings hold the same characters.
pub fn same_text(a: &str, b: &str) -> (r: bool)
    ensures
        r == (a@ == b@),
{
    let left = chars_of(a);
    let right = chars_of(b);
    same(left.as_slice(), right.as_slice())
}

/// Whether `s` takes at most `limit` bytes in UTF-8.
pub fn byte_len_at_most(s: &[char], limit: usize) -> (r: bool)
    ensures
        r == (byte_len(s@) <= limit),
{
    let mut used: usize = 0;
    let mut i: usize = 0;
    while i < s.len()
        invariant
            i <= s.len(),
            used <= limit,
            used == byte_len(s@.take(i as int)),
        decreases s.len() - i,
    {
        let code: u32 = s[i] as u32;
        let width: usize = if code <= 0x7F {
            1
        } else if code <= 0x7FF {
            2
        } else if code <= 0xFFFF {
            3
        } else {
            4
        };
        assert(s@.take(i + 1).drop_last() =~= s@.take(i as int));
        assert(byte_len(s@.take(i + 1)) == used + width);
        if width > limit - used {
            proof {
                lemma_byte_len_monotone(s@, i + 1);
            }
            return false;
        }
        used += width;
        i += 1;
    }
    assert(s@.take(i as int) =~= s@);
    true
}

proof fn lemma_byte_len_monotone(s: Seq<char>, i: int)
    requires
        0 <= i <= s.len(),
    ensures
        byte_len(s.take(i)) <= byte_len(s),
    decreases s.len(),
{
    if i == s.len() {
        assert(s.take(i) =~= s);
    } else {
        lemma_byte_len_monotone(s.drop_last(), i);
        assert(s.drop_last().take(i) =~= s.take(i));
    }
}

/// `s` without the longest prefix made of characters of `class`.
pub fn without_start<'a>(s: &'a [char], class: &CharClass) -> (r: &'a [char])
    ensures
        r@ == strip_start(s@, *class),
{
    let mut i: usize = 0;
    assert(s@.skip(0) =~= s@);
    while i < s.len() && class.includes(s[i])
        invariant
            i <= s.len(),
            strip_start(s@.skip(i as int), *class) == strip_start(s@, *class),
        decreases s.len() - i,
    {
        assert(s@.skip(i as int).drop_first() =~= s@.skip(i + 1));
        i += 1;
    }
    assert(s@.subrange(i as int, s@.len() as int) =~= s@.skip(i as int));
    slice_subrange(s, i, s.len())
}

/// `s` without the longest suffix made of characters of `class`.
pub fn without_end<'a>(s: &'a [char], class: &CharClass) -> (r: &'a [char])
    ensures
        r@ == strip_end(s@, *class),
{
    let mut n: usize = s.len();
    assert(s@.take(n as int) =~= s@);
    while n > 0 && class.includes(s[n - 1])
        invariant
            n <= s.len(),
            strip_end(s@.take(n as int), *class) == strip_end(s@, *class),
        decreases n,
    {
        assert(s@.take(n as int).drop_last() =~= s@.take(n - 1));
        n -= 1;
    }
    assert(s@.subrange(0, n as int) =~= s@.take(n as int));
    slice_subrange(s, 0, n)
}

/// `s` without leading and trailing white space.
pub fn trimmed(s: &[char]) -> (r: &[char])
    ensures
        r@ == trim(s@),
{
    let rest = without_start(s, &CharClass::WhiteSpace);
    without_end(rest, &CharClass::WhiteSpace)
}

/// Whether nothing but white space stands in `s`.
pub fn is_blank(s: &str) -> (r: bool)
    ensures
        r == (trim(s@).len() == 0),
{
    let chars = chars_of(s);
    trimmed(chars.as_slice()).len() == 0
}

/// The string without leading and trailing white space.
pub fn trimmed_text(s: &str) -> (r: String)
    ensures
        r@ == trim(s@),
{
    let chars = chars_of(s);
    string_of(trimmed(chars.as_slice()))
}

/// The first `n` characters of `s`, or all of it when it is shorter.
pub fn first_chars(s: &[char], n: usize) -> (r: &[char])
    ensures
        r@ == head(s@, n as nat),
{
    if s.len() <= n {
        s
    } else {
        assert(s@.subrange(0, n as int) =~= s@.take(n as int));
        slice_subrange(s, 0, n)
    }
}

/// Whether `pattern` stands in `s` at position `i`.
pub fn stands_at(s: &[char], pattern: &[char], i: usize) -> (r: bool)
    ensures
        r == occurs_at(s@, pattern@, i as int),
{
    if i > s.len() || pattern.len() > s.len() - i {
        return false;
    }
    same(slice_subrange(s, i, i + pattern.len()), pattern)
}

/// The leftmost position at which `pattern` stands in `s`.
pub fn find(s: &[char], pattern: &[char]) -> (r: Option<usize>)
    ensures
        match r {
            Some(i) => first_occurrence(s@, pattern@, i as int),
            None => !contains(s@, pattern@),
        },
{
    let mut i: usize = 0;
    while i <= s.len()
        invariant
            i <= s.len() + 1,
            forall|j: int| 0 <= j < i ==> !occurs_at(s@, pattern@, j),
        decreases s.len() + 1 - i,
    {
        if stands_at(s, pattern, i) {
            return Some(i);
        }
        if i == s.len() {
            return None;
        }
        i += 1;
    }
    None
}

/// Whether `pattern` stands somewhere in `s`.
pub fn includes(s: &[char], pattern: &[char]) -> (r: bool)
    ensures
        r == contains(s@, pattern@),
{
    match find(s, pattern) {
        Some(i) => {
            assert(occurs_at(s@, pattern@, i as int));
            true
        },
        None => false,
    }
}

/// The leftmost occurrence is the one that [`split_once`] splits at.
pub proof fn lemma_split_once_at(s: Seq<char>, separator: Seq<char>, i: int)
    requires
        first_occurrence(s, separator, i),
    ensures
        split_once(s, separator) == Some((s.take(i), s.skip(i + separator.len()))),
{
    assert(occurs_at(s, separator, i));
    let chosen = choose|k: int| first_occurrence(s, separator, k);
    assert(first_occurrence(s, separator, chosen));
    assert(chosen == i);
}

/// What stands before and after the leftmost `separator` in `s`.
pub fn cut_once<'a>(s: &'a [char], separator: &[char]) -> (r: Option<(&'a [char], &'a [char])>)
    ensures
        match r {
            Some((before, after)) => split_once(s@, separator@) == Some((before@, after@)),
            None => split_once(s@, separator@) is None,
        },
{
    match find(s, separator) {
        Some(i) => {
            proof {
                lemma_split_once_at(s@, separator@, i as int);
            }
            assert(i + separator@.len() <= s.len());
            let j: usize = i + separator.len();
            assert(s@.subrange(0, i as int) =~= s@.take(i as int));
            assert(s@.subrange(j as int, s@.len() as int) =~= s@.skip(j as int));
            Some((slice_subrange(s, 0, i), slice_subrange(s, j, s.len())))
        },
        None => None,
    }
}

/// `s` with every `from` replaced by `to`, from left to right.
pub fn with_replaced(s: &[char], from: &[char], to: &[char]) -> (r: Vec<char>)
    requires
        from@.len() > 0,
    ensures
        r@ == replaced(s@, from@, to@),
{
    let mut r: Vec<char> = Vec::new();
    let mut i: usize = 0;
    while i < s.len()
        invariant
            from@.len() > 0,
            i <= s.len(),
            r@ + replaced_from(s@, from@, to@, i as int) == replaced(s@, from@, to@),
        decreases s.len() - i,
    {
        let ghost done = r@;
        if stands_at(s, from, i) {
            append(&mut r, to);
            assert(r@ + replaced_from(s@, from@, to@, i + from@.len()) =~= done + (to@
                + replaced_from(s@, from@, to@, i + from@.len())));
            i += from.len();
        } else {
            r.push(s[i]);
            assert(r@ + replaced_from(s@, from@, to@, i + 1) =~= done + (seq![s@[i as int]]
                + replaced_from(s@, from@, to@, i + 1)));
            i += 1;
        }
    }
    assert(r@ + s@.skip(i as int) =~= r@);
    r
}

/// [`split`] always yields a piece.
pub proof fn lemma_split_nonempty(s: Seq<char>, class: CharClass)
    ensures
        split(s, class).len() > 0,
    decreases s.len(),
{
    if s.len() > 0 {
        lemma_split_nonempty(s.drop_last(), class);
    }
}

/// The pieces of `s` between the characters of `class`.
pub fn pieces(s: &[char], class: &CharClass) -> (r: Vec<Vec<char>>)
    ensures
        piece_views(r@) == split(s@, *class),
{
    let mut done: Vec<Vec<char>> = Vec::new();
    let mut current: Vec<char> = Vec::new();
    let mut i: usize = 0;
    assert(s@.take(0) =~= Seq::<char>::empty());
    assert(piece_views(done@).push(current@) =~= split(s@.take(0), *class));
    while i < s.len()
        invariant
            i <= s.len(),
            piece_views(done@).push(current@) == split(s@.take(i as int), *class),
        decreases s.len() - i,
    {
        let c = s[i];
        let ghost before = piece_views(done@).push(current@);
        assert(s@.take(i + 1).drop_last() =~= s@.take(i as int));
        if class.includes(c) {
            done.push(current);
            current = Vec::new();
            assert(piece_views(done@) =~= before);
        } else {
            current.push(c);
            assert(before.drop_last() =~= piece_views(done@));
        }
        i += 1;
    }
    assert(s@.take(i as int) =~= s@);
    let ghost finished = piece_views(done@).push(current@);
    done.push(current);
    assert(piece_views(done@) =~= finished);
    done
}

/// The strings one after another, with `separator` between neighbours.
pub fn join(parts: &[String], separator: &str) -> (r: String)
    ensures
        r@ == joined(views(parts@), separator@),
{
    let separator_chars = chars_of(separator);
    let mut r: Vec<char> = Vec::new();
    let mut i: usize = 0;
    assert(views(parts@).take(0) =~= Seq::<Seq<char>>::empty());
    while i < parts.len()
        invariant
            i <= parts.len(),
            separator_chars@ == separator@,
            r@ == joined(views(parts@).take(i as int), separator@),
        decreases parts.len() - i,
    {
        let ghost before = views(parts@).take(i as int);
        let ghost after = views(parts@).take(i + 1);
        assert(after.drop_last() =~= before);
        assert(after.last() == parts@[i as int]@);
        if i > 0 {
            append(&mut r, separator_chars.as_slice());
        }
        let part = chars_of(parts[i].as_str());
        append(&mut r, part.as_slice());
        assert(r@ =~= joined(after, separator@));
        i += 1;
    }
    assert(views(parts@).take(i as int) =~= views(parts@));
    string_of(r.as_slice())
}

/// `a` followed by `b`.
pub fn concat(a: &str, b: &str) -> (r: String)
    ensures
        r@ == a@ + b@,
{
    let mut chars = chars_of(a);
    let more = chars_of(b);
    append(&mut chars, more.as_slice());
    string_of(chars.as_slice())
}

/// The decimal digits of `n`.
pub open spec fn decimal_digits(n: nat) -> Seq<char>
    decreases n,
{
    let digit = (0x30 + n % 10) as char;
    if n < 10 {
        seq![digit]
    } else {
        decimal_digits(n / 10).push(digit)
    }
}

/// The decimal digits of `n`.
pub fn decimal(n: u64) -> (r: String)
    ensures
        r@ == decimal_digits(n as nat),
    decreases n,
{
    let digit = match n % 10 {
        0 => '0',
        1 => '1',
        2 => '2',
        3 => '3',
        4 => '4',
        5 => '5',
        6 => '6',
        7 => '7',
        8 => '8',
        _ => '9',
    };
    let mut r = if n < 10 {
        String::new()
    } else {
        decimal(n / 10)
    };
    r.push(digit);
    assert(r@ =~= decimal_digits(n as nat));
    r
}

/// A copy of the strings.
pub fn copy_texts(strings: &[String]) -> (r: Vec<String>)
    ensures
        views(r@) == views(strings@),
{
    let mut r: Vec<String> = Vec::new();
    let mut i: usize = 0;
    while i < strings.len()
        invariant
            i <= strings.len(),
            views(r@) == views(strings@).take(i as int),
        decreases strings.len() - i,
    {
        let ghost before = r@;
        r.push(strings[i].clone());
        assert(views(r@) =~= views(before).push(strings@[i as int]@));
        assert(views(strings@).take(i + 1) =~= views(strings@).take(i as int).push(
            strings@[i as int]@,
        ));
        i += 1;
    }
    assert(views(strings@).take(i as int) =~= views(strings@));
    r
}

/// What [`strip_start`] leaves does not begin with a character of the class,
/// and is a suffix of what it was given.
pub proof fn strip_start_leaves_a_suffix(s: Seq<char>, class: CharClass)
    ensures
        strip_start(s, class).len() <= s.len(),
        strip_start(s, class) == s.skip(s.len() - strip_start(s, class).len()),
        strip_start(s, class).len() > 0 ==> !class.has(strip_start(s, class)[0]),
        strip_start(strip_start(s, class), class) == strip_start(s, class),
    decreases s.len(),
{
    if s.len() > 0 && class.has(s[0]) {
        strip_start_leaves_a_suffix(s.drop_first(), class);
        let rest = strip_start(s, class);
        assert(s.drop_first().skip(s.len() - 1 - rest.len()) =~= s.skip(s.len() - rest.len()));
    } else {
        assert(s.skip(0) =~= s);
    }
}

/// What [`strip_end`] leaves does not end with a character of the class, and is
/// a prefix of what it was given.
pub proof fn strip_end_leaves_a_prefix(s: Seq<char>, class: CharClass)
    ensures
        strip_end(s, class).len() <= s.len(),
        strip_end(s, class) == s.take(strip_end(s, class).len() as int),
        strip_end(s, class).len() > 0 ==> !class.has(strip_end(s, class).last()),
        strip_end(strip_end(s, class), class) == strip_end(s, class),
    decreases s.len(),
{
    if s.len() > 0 && class.has(s.last()) {
        strip_end_leaves_a_prefix(s.drop_last(), class);
        let rest = strip_end(s, class);
        assert(s.drop_last().take(rest.len() as int) =~= s.take(rest.len() as int));
    } else {
        assert(s.take(s.len() as int) =~= s);
    }
}

/// Trimming twice is trimming once, and trimmed text has no white space at
/// either end.
pub proof fn trimming_is_idempotent(s: Seq<char>)
    ensures
        trim(trim(s)) == trim(s),
        trim(s).len() <= s.len(),
        trim(s).len() > 0 ==> !is_white_space(trim(s)[0]) && !is_white_space(trim(s).last()),
{
    let inner = strip_start(s, CharClass::WhiteSpace);
    strip_start_leaves_a_suffix(s, CharClass::WhiteSpace);
    strip_end_leaves_a_prefix(inner, CharClass::WhiteSpace);
    let done = trim(s);
    if done.len() > 0 {
        assert(done[0] == inner[0]);
    }
    assert(strip_start(done, CharClass::WhiteSpace) == done);
}

/// No piece holds a character of the class, and every piece stands in `s`.
pub proof fn pieces_stand_in_the_text(s: Seq<char>, class: CharClass)
    ensures
        forall|k: int|
            0 <= k < split(s, class).len() ==> #[trigger] contains(s, split(s, class)[k]),
        forall|k: int, i: int|
            0 <= k < split(s, class).len() && 0 <= i < split(s, class)[k].len() ==> !class.has(
                #[trigger] split(s, class)[k][i],
            ),
{
    lemma_pieces(s, class);
}

proof fn lemma_pieces(s: Seq<char>, class: CharClass)
    ensures
        split(s, class).len() > 0,
        split(s, class).last().len() <= s.len(),
        split(s, class).last() == s.skip(s.len() - split(s, class).last().len()),
        forall|k: int|
            0 <= k < split(s, class).len() ==> #[trigger] contains(s, split(s, class)[k]),
        forall|k: int, i: int|
            0 <= k < split(s, class).len() && 0 <= i < split(s, class)[k].len() ==> !class.has(
                #[trigger] split(s, class)[k][i],
            ),
    decreases s.len(),
{
    let all = split(s, class);
    if s.len() == 0 {
        assert(s.subrange(0, 0) =~= all[0]);
        assert(occurs_at(s, all[0], 0));
    } else {
        let rest = s.drop_last();
        let before = split(rest, class);
        lemma_pieces(rest, class);
        let last = all.last();
        assert(last =~= s.skip(s.len() - last.len()));
        assert forall|k: int| 0 <= k < all.len() implies #[trigger] contains(s, all[k]) by {
            if k == all.len() - 1 {
                assert(s.subrange(s.len() - last.len(), s.len() as int) =~= last);
                assert(occurs_at(s, last, s.len() - last.len()));
            } else {
                assert(all[k] == before[k]);
                assert(contains(rest, before[k]));
                let i = choose|i: int| occurs_at(rest, before[k], i);
                assert(rest.subrange(i, i + before[k].len()) =~= s.subrange(
                    i,
                    i + before[k].len(),
                ));
                assert(occurs_at(s, all[k], i));
            }
        }
        assert forall|k: int, i: int|
            0 <= k < all.len() && 0 <= i < all[k].len() implies !class.has(
            #[trigger] all[k][i],
        ) by {
            if k < all.len() - 1 {
                assert(all[k] == before[k]);
                assert(!class.has(before[k][i]));
            } else if !class.has(s.last()) {
                let m = before.len() - 1;
                assert(last == before[m].push(s.last()));
                if i < last.len() - 1 {
                    assert(!class.has(before[m][i]));
                }
            }
        }
    }
}

/// Text that neither begins nor ends with white space is found in the trimmed
/// text wherever it is found in the whole.
pub proof fn trimming_keeps_what_it_contains(s: Seq<char>, pattern: Seq<char>)
    requires
        contains(s, pattern),
        pattern.len() > 0,
        !is_white_space(pattern[0]),
        !is_white_space(pattern.last()),
    ensures
        contains(trim(s), pattern),
{
    let inner = strip_start(s, CharClass::WhiteSpace);
    let i = choose|i: int| occurs_at(s, pattern, i);
    strip_start_leaves_a_suffix(s, CharClass::WhiteSpace);
    lemma_stripped_prefix(s, i);
    assert(s[i] == s.subrange(i, i + pattern.len())[0]);
    let j = i - (s.len() - inner.len());
    assert(inner.subrange(j, j + pattern.len()) =~= s.subrange(i, i + pattern.len()));
    assert(occurs_at(inner, pattern, j));
    let end = j + pattern.len() - 1;
    assert(inner[end] == inner.subrange(j, j + pattern.len()).last());
    strip_end_leaves_a_prefix(inner, CharClass::WhiteSpace);
    lemma_stripped_suffix(inner, end);
    let done = trim(s);
    assert(done.subrange(j, j + pattern.len()) =~= inner.subrange(j, j + pattern.len()));
    assert(occurs_at(done, pattern, j));
}

proof fn lemma_stripped_prefix(s: Seq<char>, i: int)
    requires
        0 <= i < s.len(),
        !is_white_space(s[i]),
    ensures
        s.len() - strip_start(s, CharClass::WhiteSpace).len() <= i,
    decreases s.len(),
{
    if is_white_space(s[0]) {
        lemma_stripped_prefix(s.drop_first(), i - 1);
    }
}

proof fn lemma_stripped_suffix(s: Seq<char>, i: int)
    requires
        0 <= i < s.len(),
        !is_white_space(s[i]),
    ensures
        strip_end(s, CharClass::WhiteSpace).len() > i,
    decreases s.len(),
{
    if is_white_space(s.last()) {
        lemma_stripped_suffix(s.drop_last(), i);
    }
}

/// What is found with case is found without.
pub proof fn lowercase_keeps_what_it_contains(s: Seq<char>, pattern: Seq<char>)
    requires
        contains(s, pattern),
    ensures
        contains(lowercase(s), lowercase(pattern)),
{
    let i = choose|i: int| occurs_at(s, pattern, i);
    assert forall|k: int| 0 <= k < pattern.len() implies s[i + k] == pattern[k] by {
        assert(s.subrange(i, i + pattern.len())[k] == pattern[k]);
    }
    assert(lowercase(s).subrange(i, i + pattern.len() as int) =~= lowercase(pattern));
    assert(occurs_at(lowercase(s), lowercase(pattern), i));
}

/// Joining the pieces between one separator gives the text back.
pub proof fn joining_undoes_splitting(s: Seq<char>, separator: char)
    ensures
        joined(split(s, CharClass::Only(separator)), seq![separator]) == s,
    decreases s.len(),
{
    let class = CharClass::Only(separator);
    let all = split(s, class);
    if s.len() > 0 {
        let rest = s.drop_last();
        let before = split(rest, class);
        joining_undoes_splitting(rest, separator);
        lemma_split_nonempty(rest, class);
        if class.has(s.last()) {
            assert(all.drop_last() =~= before);
            assert(joined(all, seq![separator]) =~= s);
        } else {
            assert(all.drop_last() =~= before.drop_last());
            if before.len() == 1 {
                assert(joined(all, seq![separator]) =~= s);
            } else {
                assert(joined(all, seq![separator]) =~= joined(before, seq![separator]).push(
                    s.last(),
                ));
                assert(joined(all, seq![separator]) =~= s);
            }
        }
    }
}

/// Replacing what does not occur changes nothing.
pub proof fn replacing_nothing(s: Seq<char>, from: Seq<char>, to: Seq<char>)
    requires
        !contains(s, from),
    ensures
        replaced(s, from, to) == s,
{
    lemma_replacing_nothing_from(s, from, to, 0);
    assert(s.skip(0) =~= s);
}

proof fn lemma_replacing_nothing_from(s: Seq<char>, from: Seq<char>, to: Seq<char>, i: int)
    requires
        !contains(s, from),
        0 <= i <= s.len(),
    ensures
        replaced_from(s, from, to, i) == s.skip(i),
    decreases s.len() - i,
{
    if i < s.len() && from.len() > 0 {
        assert(!occurs_at(s, from, i));
        lemma_replacing_nothing_from(s, from, to, i + 1);
        assert(seq![s[i]] + s.skip(i + 1) =~= s.skip(i));
    }
}

/// The pieces of two texts with the separating character between them are the
/// pieces of the one and then those of the other.
pub proof fn splitting_joined_text(a: Seq<char>, separator: char, b: Seq<char>)
    ensures
        split(a.push(separator) + b, CharClass::Only(separator)) == split(
            a,
            CharClass::Only(separator),
        ) + split(b, CharClass::Only(separator)),
    decreases b.len(),
{
    let class = CharClass::Only(separator);
    let whole = a.push(separator) + b;
    if b.len() == 0 {
        assert(whole.drop_last() =~= a);
        assert(whole.last() == separator);
        assert(split(whole, class) =~= split(a, class) + split(b, class));
    } else {
        splitting_joined_text(a, separator, b.drop_last());
        assert(whole.drop_last() =~= a.push(separator) + b.drop_last());
        assert(whole.last() == b.last());
        lemma_split_nonempty(b.drop_last(), class);
        assert(split(whole, class) =~= split(a, class) + split(b, class));
    }
}

/// Small letters and trimming do not get in each other's way.
pub proof fn trimming_commutes_with_lowercase(s: Seq<char>)
    ensures
        trim(lowercase(s)) == lowercase(trim(s)),
{
    lemma_strip_start_lowercase(s, CharClass::WhiteSpace);
    lemma_strip_end_lowercase(strip_start(s, CharClass::WhiteSpace), CharClass::WhiteSpace);
}

/// The class holds a capital and its small letter together, or neither.
pub open spec fn ignores_case(class: CharClass) -> bool {
    forall|c: char| class.has(#[trigger] lower_char(c)) == class.has(c)
}

/// White space and marks are neither capitals nor small letters.
pub proof fn lemma_ignores_case(mark: char)
    requires
        !is_ascii_upper(mark),
        !is_ascii_lower(mark),
    ensures
        ignores_case(CharClass::WhiteSpace),
        ignores_case(CharClass::Only(mark)),
{
    assert forall|c: char| CharClass::WhiteSpace.has(#[trigger] lower_char(c))
        == CharClass::WhiteSpace.has(c) && CharClass::Only(mark).has(lower_char(c))
        == CharClass::Only(mark).has(c) by {
        lemma_lower_char(c);
    }
}

/// Only a capital changes, and it becomes a small letter.
pub proof fn lemma_lower_char(c: char)
    ensures
        is_ascii_upper(c) ==> is_ascii_lower(lower_char(c)),
        !is_ascii_upper(c) ==> lower_char(c) == c,
{
    if is_ascii_upper(c) {
        assert((c as u32 + 0x20) as char as u32 == c as u32 + 0x20);
    }
}

/// Stripping a class that ignores case commutes with small letters.
pub proof fn lemma_strip_start_lowercase(s: Seq<char>, class: CharClass)
    requires
        class == CharClass::WhiteSpace || ignores_case(class),
    ensures
        strip_start(lowercase(s), class) == lowercase(strip_start(s, class)),
    decreases s.len(),
{
    lemma_ignores_case('@');
    if s.len() > 0 {
        assert(class.has(lower_char(s[0])) == class.has(s[0]));
        assert(lowercase(s)[0] == lower_char(s[0]));
        assert(lowercase(s).drop_first() =~= lowercase(s.drop_first()));
        lemma_strip_start_lowercase(s.drop_first(), class);
    }
}

proof fn lemma_strip_end_lowercase(s: Seq<char>, class: CharClass)
    requires
        class == CharClass::WhiteSpace || ignores_case(class),
    ensures
        strip_end(lowercase(s), class) == lowercase(strip_end(s, class)),
    decreases s.len(),
{
    lemma_ignores_case('@');
    if s.len() > 0 {
        assert(class.has(lower_char(s.last())) == class.has(s.last()));
        assert(lowercase(s).last() == lower_char(s.last()));
        assert(lowercase(s).drop_last() =~= lowercase(s.drop_last()));
        lemma_strip_end_lowercase(s.drop_last(), class);
    }
}

/// Where a text is split at a separator without letters does not depend on case.
pub proof fn splitting_commutes_with_lowercase(s: Seq<char>, separator: Seq<char>)
    requires
        forall|k: int|
            0 <= k < separator.len() ==> !is_ascii_upper(#[trigger] separator[k])
                && !is_ascii_lower(separator[k]),
    ensures
        split_once(lowercase(s), separator) == (match split_once(s, separator) {
            Some((left, right)) => Some((lowercase(left), lowercase(right))),
            None => None,
        }),
{
    let low = lowercase(s);
    assert forall|i: int| #[trigger] occurs_at(low, separator, i) == occurs_at(s, separator, i) by {
        if 0 <= i && i + separator.len() <= s.len() {
            let a = low.subrange(i, i + separator.len());
            let b = s.subrange(i, i + separator.len());
            assert forall|k: int| 0 <= k < separator.len() implies (a[k] == separator[k]) == (b[k]
                == separator[k]) by {
                lemma_lower_char(b[k]);
                assert(a[k] == lower_char(b[k]));
            }
            if a == separator {
                assert(b =~= separator);
            }
            if b == separator {
                assert(a =~= separator);
            }
        }
    }
    if contains(s, separator) {
        let any = choose|i: int| occurs_at(s, separator, i);
        let i = lemma_first_occurrence(s, separator, any);
        assert(occurs_at(low, separator, i));
        assert(first_occurrence(low, separator, i));
        lemma_split_once_at(s, separator, i);
        lemma_split_once_at(low, separator, i);
        assert(low.take(i) =~= lowercase(s.take(i)));
        assert(low.skip(i + separator.len()) =~= lowercase(s.skip(i + separator.len())));
    } else if contains(low, separator) {
        let i = choose|i: int| occurs_at(low, separator, i);
        assert(occurs_at(s, separator, i));
    }
}

proof fn lemma_first_occurrence(s: Seq<char>, pattern: Seq<char>, at: int) -> (i: int)
    requires
        occurs_at(s, pattern, at),
    ensures
        first_occurrence(s, pattern, i),
    decreases at,
{
    if exists|j: int| 0 <= j < at && occurs_at(s, pattern, j) {
        let j = choose|j: int| 0 <= j < at && occurs_at(s, pattern, j);
        lemma_first_occurrence(s, pattern, j)
    } else {
        at
    }
}

/// The pieces of two texts with a separating character between them are the
/// pieces of the one and then those of the other.
pub proof fn splitting_at_a_separator(a: Seq<char>, separator: char, b: Seq<char>, class: CharClass)
    requires
        class.has(separator),
    ensures
        split(a.push(separator) + b, class) == split(a, class) + split(b, class),
    decreases b.len(),
{
    let whole = a.push(separator) + b;
    if b.len() == 0 {
        assert(whole.drop_last() =~= a);
        assert(whole.last() == separator);
        assert(split(whole, class) =~= split(a, class) + split(b, class));
    } else {
        splitting_at_a_separator(a, separator, b.drop_last(), class);
        assert(whole.drop_last() =~= a.push(separator) + b.drop_last());
        assert(whole.last() == b.last());
        lemma_split_nonempty(b.drop_last(), class);
        assert(split(whole, class) =~= split(a, class) + split(b, class));
    }
}

/// A text without separating characters is one piece.
pub proof fn a_text_without_separators_is_one_piece(s: Seq<char>, class: CharClass)
    requires
        forall|i: int| 0 <= i < s.len() ==> !class.has(#[trigger] s[i]),
    ensures
        split(s, class) == seq![s],
    decreases s.len(),
{
    if s.len() > 0 {
        a_text_without_separators_is_one_piece(s.drop_last(), class);
        assert(!class.has(s[s.len() - 1]));
        assert(s.drop_last().push(s.last()) =~= s);
        assert(split(s, class) =~= seq![s]);
    } else {
        assert(s =~= Seq::<char>::empty());
    }
}

/// White space is taken off at both ends, and nothing else is.
pub proof fn trimming_takes_off_white_space_alone(
    before: Seq<char>,
    inner: Seq<char>,
    after: Seq<char>,
)
    requires
        forall|i: int| 0 <= i < before.len() ==> is_white_space(#[trigger] before[i]),
        forall|i: int| 0 <= i < after.len() ==> is_white_space(#[trigger] after[i]),
        inner.len() > 0 ==> !is_white_space(inner[0]) && !is_white_space(inner.last()),
    ensures
        trim(before + inner + after) == inner,
    decreases before.len() + after.len(),
{
    let whole = before + inner + after;
    if before.len() > 0 {
        assert(whole.drop_first() =~= before.drop_first() + inner + after);
        assert(whole[0] == before[0]);
        trimming_takes_off_white_space_alone(before.drop_first(), inner, after);
    } else if inner.len() == 0 && after.len() > 0 {
        assert(whole.drop_first() =~= before + inner + after.drop_first());
        assert(whole[0] == after[0]);
        trimming_takes_off_white_space_alone(before, inner, after.drop_first());
    } else if inner.len() == 0 {
        assert(whole =~= inner);
    } else {
        assert(whole =~= inner + after);
        assert(whole[0] == inner[0]);
        lemma_strip_end_of(inner, after);
    }
}

proof fn lemma_strip_end_of(inner: Seq<char>, after: Seq<char>)
    requires
        forall|i: int| 0 <= i < after.len() ==> is_white_space(#[trigger] after[i]),
        inner.len() > 0,
        !is_white_space(inner.last()),
    ensures
        strip_end(inner + after, CharClass::WhiteSpace) == inner,
    decreases after.len(),
{
    let whole = inner + after;
    if after.len() > 0 {
        assert(whole.last() == after[after.len() - 1]);
        assert(whole.drop_last() =~= inner + after.drop_last());
        lemma_strip_end_of(inner, after.drop_last());
    } else {
        assert(whole =~= inner);
    }
}

/// Slashes, or whatever single character, are taken off the end, and nothing
/// else is.
pub proof fn stripping_takes_off_one_character_alone(inner: Seq<char>, mark: char, count: nat)
    requires
        inner.len() > 0 ==> inner.last() != mark,
    ensures
        strip_end(inner + Seq::new(count, |i: int| mark), CharClass::Only(mark)) == inner,
    decreases count,
{
    let marks = Seq::new(count, |i: int| mark);
    let whole = inner + marks;
    if count > 0 {
        assert(whole.last() == mark);
        assert(whole.drop_last() =~= inner + Seq::new((count - 1) as nat, |i: int| mark));
        stripping_takes_off_one_character_alone(inner, mark, (count - 1) as nat);
    } else {
        assert(whole =~= inner);
    }
}

proof fn lemma_replacing_the_rest(s: Seq<char>, from: Seq<char>, to: Seq<char>, k: int, i: int)
    requires
        0 <= k,
        0 <= i,
        k + i <= s.len(),
    ensures
        replaced_from(s.skip(k), from, to, i) == replaced_from(s, from, to, k + i),
    decreases s.len() - k - i,
{
    let rest = s.skip(k);
    if k + i >= s.len() || from.len() == 0 {
        assert(rest.skip(i) =~= s.skip(k + i));
    } else {
        if i + from.len() <= rest.len() {
            assert(rest.subrange(i, i + from.len()) =~= s.subrange(k + i, k + i + from.len()));
        }
        assert(occurs_at(rest, from, i) == occurs_at(s, from, k + i));
        if occurs_at(rest, from, i) {
            lemma_replacing_the_rest(s, from, to, k, i + from.len());
        } else {
            lemma_replacing_the_rest(s, from, to, k, i + 1);
        }
    }
}

proof fn lemma_replacing_up_to(s: Seq<char>, from: Seq<char>, to: Seq<char>, i: int, end: int)
    requires
        from.len() > 0,
        0 <= i <= end < s.len(),
        forall|j: int| i <= j < end ==> !occurs_at(s, from, j),
    ensures
        replaced_from(s, from, to, i) == s.subrange(i, end) + replaced_from(s, from, to, end),
    decreases end - i,
{
    if i < end {
        assert(!occurs_at(s, from, i));
        lemma_replacing_up_to(s, from, to, i + 1, end);
        assert(seq![s[i]] + s.subrange(i + 1, end) =~= s.subrange(i, end));
        assert(replaced_from(s, from, to, i) =~= s.subrange(i, end) + replaced_from(
            s,
            from,
            to,
            end,
        ));
    } else {
        assert(s.subrange(i, end) + replaced_from(s, from, to, end) =~= replaced_from(
            s,
            from,
            to,
            end,
        ));
    }
}

/// What stands in front of the first occurrence stays, the occurrence is
/// replaced, and replacing goes on behind it.
pub proof fn the_first_occurrence_is_replaced(
    a: Seq<char>,
    from: Seq<char>,
    b: Seq<char>,
    to: Seq<char>,
)
    requires
        from.len() > 0,
        forall|j: int| 0 <= j < a.len() ==> !occurs_at(a + from + b, from, j),
    ensures
        replaced(a + from + b, from, to) == a + to + replaced(b, from, to),
{
    let s = a + from + b;
    let at = a.len() as int;
    assert(s.subrange(at, at + from.len()) =~= from);
    assert(occurs_at(s, from, at));
    lemma_replacing_up_to(s, from, to, 0, at);
    assert(s.subrange(0, at) =~= a);
    assert(s.skip(at + from.len()) =~= b);
    lemma_replacing_the_rest(s, from, to, at + from.len(), 0);
    assert(replaced(s, from, to) =~= a + to + replaced(b, from, to));
}

/// The number that decimal digits stand for.
pub open spec fn number_of(digits: Seq<char>) -> nat
    decreases digits.len(),
{
    if digits.len() == 0 {
        0
    } else {
        10 * number_of(digits.drop_last()) + (digits.last() as nat - 0x30) as nat
    }
}

/// Decimal digits stand for their number, without zeros in front.
pub proof fn digits_stand_for_their_number(n: nat)
    ensures
        number_of(decimal_digits(n)) == n,
        forall|i: int|
            0 <= i < decimal_digits(n).len() ==> is_ascii_digit(#[trigger] decimal_digits(n)[i]),
        decimal_digits(n).len() > 0,
        decimal_digits(n)[0] == '0' ==> n == 0,
    decreases n,
{
    let digit = (0x30 + n % 10) as char;
    assert(digit as nat == 0x30 + n % 10);
    let digits = decimal_digits(n);
    assert(digits.last() == digit);
    assert(number_of(Seq::<char>::empty()) == 0);
    if n >= 10 {
        digits_stand_for_their_number(n / 10);
        assert(digits.drop_last() =~= decimal_digits(n / 10));
        assert(digits[0] == decimal_digits(n / 10)[0]);
        assert forall|i: int| 0 <= i < digits.len() implies is_ascii_digit(#[trigger] digits[i]) by {
            if i < digits.len() - 1 {
                assert(digits[i] == decimal_digits(n / 10)[i]);
            }
        }
    } else {
        assert(digits.drop_last() =~= Seq::<char>::empty());
    }
}

/// The first and the last characters of a text are what their names say: no more
/// than asked for, and as many as there are.
pub proof fn heads_and_tails_are_cut_to_length(s: Seq<char>, n: nat)
    ensures
        head(s, n).is_prefix_of(s),
        tail(s, n).is_suffix_of(s),
        s.len() <= n ==> head(s, n) == s && tail(s, n) == s,
        s.len() > n ==> head(s, n).len() == n && tail(s, n).len() == n,
{
    assert(tail(s, n) =~= s.skip(s.len() - tail(s, n).len()));
}

/// A list of one is kept or dropped whole.
pub proof fn lemma_filter_one<A>(x: A, keep: spec_fn(A) -> bool)
    ensures
        seq![x].filter(keep) == (if keep(x) {
            seq![x]
        } else {
            Seq::empty()
        }),
{
    reveal(Seq::filter);
    assert(seq![x].drop_last() =~= Seq::<A>::empty());
    assert(Seq::<A>::empty().filter(keep) =~= Seq::<A>::empty());
    assert(seq![x].filter(keep) =~= (if keep(x) {
        seq![x]
    } else {
        Seq::empty()
    }));
}

/// Every piece stands in the joined text.
pub proof fn joined_text_holds_every_piece(pieces: Seq<Seq<char>>, separator: Seq<char>, i: int)
    requires
        0 <= i < pieces.len(),
    ensures
        contains(joined(pieces, separator), pieces[i]),
    decreases pieces.len(),
{
    if pieces.len() == 1 {
        let whole = joined(pieces, separator);
        assert(whole.subrange(0, whole.len() as int) =~= pieces[0]);
        assert(occurs_at(whole, pieces[i], 0));
    } else if i == pieces.len() - 1 {
        let front = joined(pieces.drop_last(), separator) + separator;
        let last = pieces.last();
        lemma_found_in_itself(last);
        lemma_contains_behind(front, last, last);
    } else {
        let shorter = pieces.drop_last();
        joined_text_holds_every_piece(shorter, separator, i);
        assert(shorter[i] == pieces[i]);
        let front = joined(shorter, separator);
        let at = choose|at: int| occurs_at(front, pieces[i], at);
        let whole = joined(pieces, separator);
        assert(whole.subrange(at, at + pieces[i].len()) =~= front.subrange(
            at,
            at + pieces[i].len(),
        ));
        assert(occurs_at(whole, pieces[i], at));
    }
}

proof fn lemma_found_in_itself(s: Seq<char>)
    ensures
        contains(s, s),
{
    assert(s.subrange(0, s.len() as int) =~= s);
    assert(occurs_at(s, s, 0));
}

/// What is found in a text is found when something stands in front of it.
pub proof fn lemma_contains_behind(front: Seq<char>, s: Seq<char>, pattern: Seq<char>)
    requires
        contains(s, pattern),
    ensures
        contains(front + s, pattern),
{
    let at = choose|at: int| occurs_at(s, pattern, at);
    let start = front.len() + at;
    assert((front + s).subrange(start, start + pattern.len()) =~= s.subrange(
        at,
        at + pattern.len(),
    ));
    assert(occurs_at(front + s, pattern, start));
}

/// The length in bytes is that of the text's UTF-8.
pub proof fn bytes_are_counted_as_in_utf8(s: Seq<char>)
    ensures
        byte_len(s) == encode_utf8(s).len(),
    decreases s.len(),
{
    if s.len() > 0 {
        lemma_byte_len_first(s);
        bytes_are_counted_as_in_utf8(s.drop_first());
        lemma_char_width(s[0]);
    }
}

proof fn lemma_char_width(c: char)
    ensures
        vstd::utf8::encode_scalar(c as u32).len() == char_width(c),
{
    vstd::utf8::char_is_scalar(c);
}

proof fn lemma_byte_len_first(s: Seq<char>)
    requires
        s.len() > 0,
    ensures
        byte_len(s) == char_width(s[0]) + byte_len(s.drop_first()),
    decreases s.len(),
{
    if s.len() == 1 {
        assert(s.drop_last() =~= s.drop_first());
    } else {
        lemma_byte_len_first(s.drop_last());
        assert(s.drop_last().drop_first() =~= s.drop_first().drop_last());
    }
}

/// The letters from `A` to `Z` become those from `a` to `z`, and nothing else
/// changes.
pub proof fn only_ascii_capitals_become_small(s: Seq<char>, i: int)
    requires
        0 <= i < s.len(),
    ensures
        lowercase(s).len() == s.len(),
        0x41 <= s[i] as u32 <= 0x5A ==> lowercase(s)[i] as u32 == s[i] as u32 + 32,
        !(0x41 <= s[i] as u32 <= 0x5A) ==> lowercase(s)[i] == s[i],
        lowercase(lowercase(s)) == lowercase(s),
{
    assert forall|j: int| 0 <= j < s.len() implies lower_char(lower_char(#[trigger] s[j]))
        == lower_char(s[j]) by {
        lemma_lower_char(s[j]);
    }
    assert(lowercase(lowercase(s)) =~= lowercase(s));
}

/// White space is what Unicode calls so: the 25 characters of its property.
pub proof fn white_space_is_that_of_unicode(c: char)
    ensures
        is_white_space(c) <==> {
            ||| c == '\t' || c == '\n' || c == '\u{B}' || c == '\u{C}' || c == '\r' || c == ' '
            ||| c == '\u{85}' || c == '\u{A0}' || c == '\u{1680}' || c == '\u{2000}'
            ||| c == '\u{2001}' || c == '\u{2002}' || c == '\u{2003}' || c == '\u{2004}'
            ||| c == '\u{2005}' || c == '\u{2006}' || c == '\u{2007}' || c == '\u{2008}'
            ||| c == '\u{2009}' || c == '\u{200A}' || c == '\u{2028}' || c == '\u{2029}'
            ||| c == '\u{202F}' || c == '\u{205F}' || c == '\u{3000}'
        },
{
}

/// What stands between two texts is found in the whole.
pub proof fn lemma_contains_between(a: Seq<char>, pattern: Seq<char>, b: Seq<char>)
    ensures
        contains(a + pattern + b, pattern),
{
    let at = a.len() as int;
    assert((a + pattern + b).subrange(at, at + pattern.len()) =~= pattern);
    assert(occurs_at(a + pattern + b, pattern, at));
}

/// Trimming leaves nothing exactly of text that is all white space.
pub proof fn lemma_blank(s: Seq<char>)
    ensures
        trim(s).len() == 0 <==> forall|i: int| 0 <= i < s.len() ==> is_white_space(#[trigger] s[i]),
{
    let class = CharClass::WhiteSpace;
    let rest = strip_start(s, class);
    lemma_blank_start(s);
    if rest.len() > 0 {
        lemma_kept_start(rest);
    }
}

proof fn lemma_blank_start(s: Seq<char>)
    ensures
        strip_start(s, CharClass::WhiteSpace).len() == 0 <==> forall|i: int|
            0 <= i < s.len() ==> is_white_space(#[trigger] s[i]),
        strip_start(s, CharClass::WhiteSpace).len() > 0 ==> !is_white_space(
            strip_start(s, CharClass::WhiteSpace)[0],
        ),
    decreases s.len(),
{
    if s.len() > 0 {
        let rest = s.drop_first();
        lemma_blank_start(rest);
        if is_white_space(s[0]) {
            if forall|i: int| 0 <= i < rest.len() ==> is_white_space(#[trigger] rest[i]) {
                assert forall|i: int| 0 <= i < s.len() implies is_white_space(#[trigger] s[i]) by {
                    if i > 0 {
                        assert(rest[i - 1] == s[i]);
                    }
                }
            } else {
                let i = choose|i: int| 0 <= i < rest.len() && !is_white_space(#[trigger] rest[i]);
                assert(s[i + 1] == rest[i]);
            }
        }
    }
}

proof fn lemma_kept_start(s: Seq<char>)
    requires
        s.len() > 0,
        !is_white_space(s[0]),
    ensures
        strip_end(s, CharClass::WhiteSpace).len() > 0,
    decreases s.len(),
{
    if s.len() > 1 && is_white_space(s.last()) {
        lemma_kept_start(s.drop_last());
    }
}

} // verus!
