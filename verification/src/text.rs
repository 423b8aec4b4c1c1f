//! Searching, splitting and trimming of text, as sequences of characters.
use vstd::prelude::*;
use vstd::slice::slice_subrange;

verus! {

/// A set of characters that text is trimmed by or cut at.
#[derive(Debug, Clone, Copy, PartialEq, Eq)]
pub enum CharSet {
    /// The characters with the Unicode property `White_Space`.
    Blank,
    /// `<`, `,` and `>`, which may trail the name of a base type.
    TypeTail,
    /// A single character.
    Only(char),
}

/// The Unicode property `White_Space`.
pub open spec fn white_space(c: char) -> bool {
    ||| '\u{9}' <= c && c <= '\u{d}'
    ||| c == '\u{20}'
    ||| c == '\u{85}'
    ||| c == '\u{a0}'
    ||| c == '\u{1680}'
    ||| '\u{2000}' <= c && c <= '\u{200a}'
    ||| c == '\u{2028}'
    ||| c == '\u{2029}'
    ||| c == '\u{202f}'
    ||| c == '\u{205f}'
    ||| c == '\u{3000}'
}

impl CharSet {
    pub open spec fn has(self, c: char) -> bool {
        match self {
            CharSet::Blank => white_space(c),
            CharSet::TypeTail => c == '<' || c == ',' || c == '>',
            CharSet::Only(one) => c == one,
        }
    }

    /// Whether `c` belongs to the set.
    pub fn holds(self, c: char) -> (yes: bool)
        ensures
            yes == self.has(c),
    {
        match self {
            CharSet::Blank => is_white_space(c),
            CharSet::TypeTail => c == '<' || c == ',' || c == '>',
            CharSet::Only(one) => c == one,
        }
    }
}

/// Whether `c` has the Unicode property `White_Space`.
pub fn is_white_space(c: char) -> (yes: bool)
    ensures
        yes == white_space(c),
{
    ('\u{9}' <= c && c <= '\u{d}') || c == '\u{20}' || c == '\u{85}' || c == '\u{a0}' || c
        == '\u{1680}' || ('\u{2000}' <= c && c <= '\u{200a}') || c == '\u{2028}' || c == '\u{2029}'
        || c == '\u{202f}' || c == '\u{205f}' || c == '\u{3000}'
}

/// Whether `pattern` stands in `s` at position `at`.
pub open spec fn occurs_at(s: Seq<char>, pattern: Seq<char>, at: int) -> bool {
    &&& 0 <= at
    &&& at + pattern.len() <= s.len()
    &&& s.subrange(at, at + pattern.len()) == pattern
}

/// The first position from `from` on at which `pattern` stands in `s`.
pub open spec fn find_from(s: Seq<char>, pattern: Seq<char>, from: int) -> Option<int>
    decreases s.len() + 1 - from,
{
    if from + pattern.len() > s.len() {
        None
    } else if occurs_at(s, pattern, from) {
        Some(from)
    } else {
        find_from(s, pattern, from + 1)
    }
}

/// The first position at which `pattern` stands in `s`.
pub open spec fn find(s: Seq<char>, pattern: Seq<char>) -> Option<int> {
    find_from(s, pattern, 0)
}

/// Whether `pattern` stands anywhere in `s`.
pub open spec fn contains(s: Seq<char>, pattern: Seq<char>) -> bool {
    find(s, pattern) is Some
}

/// The part of `s` before the first `pattern`, all of `s` where there is none.
pub open spec fn before(s: Seq<char>, pattern: Seq<char>) -> Seq<char> {
    match find(s, pattern) {
        Some(at) => s.take(at),
        None => s,
    }
}

/// The part of `s` after the first `pattern`.
pub open spec fn after(s: Seq<char>, pattern: Seq<char>) -> Option<Seq<char>> {
    match find(s, pattern) {
        Some(at) => Some(s.skip(at + pattern.len())),
        None => None,
    }
}

/// The part of `s` between the first `pattern` and the next one, or the end.
pub open spec fn second_piece(s: Seq<char>, pattern: Seq<char>) -> Option<Seq<char>> {
    match after(s, pattern) {
        Some(rest) => Some(before(rest, pattern)),
        None => None,
    }
}

/// The lower case form of an ASCII letter; any other character as it is.
pub open spec fn ascii_lower(c: char) -> char {
    if 'A' <= c && c <= 'Z' {
        (c as u32 + 32) as char
    } else {
        c
    }
}

/// `s` with its ASCII letters in lower case.
pub open spec fn ascii_lowercase(s: Seq<char>) -> Seq<char> {
    s.map_values(|c: char| ascii_lower(c))
}

/// How often `mark` stands in `s`.
pub open spec fn occurrences(s: Seq<char>, mark: char) -> nat
    decreases s.len(),
{
    if s.len() == 0 {
        0
    } else {
        occurrences(s.drop_last(), mark) + if s.last() == mark {
            1nat
        } else {
            0nat
        }
    }
}

/// The part of `s` after the last `mark`, all of `s` where there is none.
pub open spec fn after_last(s: Seq<char>, mark: char) -> Seq<char>
    decreases s.len(),
{
    if s.len() == 0 {
        s
    } else if s.last() == mark {
        Seq::empty()
    } else {
        after_last(s.drop_last(), mark).push(s.last())
    }
}

/// `s` without the characters of `set` that it starts with.
pub open spec fn trim_start(s: Seq<char>, set: CharSet) -> Seq<char>
    decreases s.len(),
{
    if s.len() > 0 && set.has(s.first()) {
        trim_start(s.drop_first(), set)
    } else {
        s
    }
}

/// `s` without the characters of `set` that it ends with.
pub open spec fn trim_end(s: Seq<char>, set: CharSet) -> Seq<char>
    decreases s.len(),
{
    if s.len() > 0 && set.has(s.last()) {
        trim_end(s.drop_last(), set)
    } else {
        s
    }
}

/// `s` without the characters of `set` at either end.
pub open spec fn trim_set(s: Seq<char>, set: CharSet) -> Seq<char> {
    trim_end(trim_start(s, set), set)
}

/// `s` without the white space at either end.
pub open spec fn trim(s: Seq<char>) -> Seq<char> {
    trim_set(s, CharSet::Blank)
}

/// The longest prefix of `s` that holds no character of `set`.
pub open spec fn prefix_without(s: Seq<char>, set: CharSet) -> Seq<char>
    decreases s.len(),
{
    if s.len() == 0 || set.has(s.first()) {
        Seq::empty()
    } else {
        seq![s.first()] + prefix_without(s.drop_first(), set)
    }
}

/// The first word of `s`: what stands between its leading white space and the
/// next.
pub open spec fn first_word(s: Seq<char>) -> Seq<char> {
    prefix_without(trim_start(s, CharSet::Blank), CharSet::Blank)
}

/// The entries of the comma separated list `s`, trimmed; empty ones are left out.
pub open spec fn listed(s: Seq<char>) -> Seq<Seq<char>>
    decreases s.len(),
    via listed_decreases
{
    let head = trim(before(s, seq![',']));
    let tail = match after(s, seq![',']) {
        Some(rest) => listed(rest),
        None => Seq::empty(),
    };
    if head.len() == 0 {
        tail
    } else {
        seq![head] + tail
    }
}

#[via_fn]
proof fn listed_decreases(s: Seq<char>) {
    lemma_find(s, seq![','], 0);
}

/// What `find_from` gives: the first place where the pattern stands, if any.
pub proof fn lemma_find(s: Seq<char>, pattern: Seq<char>, from: int)
    requires
        0 <= from,
    ensures
        match find_from(s, pattern, from) {
            Some(at) => from <= at && occurs_at(s, pattern, at) && forall|i: int|
                from <= i < at ==> !occurs_at(s, pattern, i),
            None => forall|i: int| from <= i ==> !occurs_at(s, pattern, i),
        },
    decreases s.len() + 1 - from,
{
    if from + pattern.len() > s.len() {
    } else if occurs_at(s, pattern, from) {
    } else {
        lemma_find(s, pattern, from + 1);
    }
}

/// A pattern whose last character does not come earlier in it is first found
/// where it was put, if the text before holds none.
pub proof fn lemma_find_after(
    start: Seq<char>,
    between: Seq<char>,
    rest: Seq<char>,
    pattern: Seq<char>,
)
    requires
        pattern.len() > 0,
        forall|k: int| 0 <= k < pattern.len() - 1 ==> #[trigger] pattern[k] != pattern.last(),
        !contains(between, pattern),
        occurs_at(rest, pattern, 0),
    ensures
        find_from(start + between + rest, pattern, start.len() as int) == Some(
            (start.len() + between.len()) as int,
        ),
{
    let s = start + between + rest;
    let from = start.len() as int;
    let at = from + between.len();
    assert(rest.subrange(0, pattern.len() as int) == pattern);
    assert(s.subrange(at, at + pattern.len()) =~= pattern);
    assert(occurs_at(s, pattern, at));
    lemma_find(between, pattern, 0);
    assert forall|i: int| from <= i < at implies !occurs_at(s, pattern, i) by {
        if occurs_at(s, pattern, i) {
            let window = s.subrange(i, i + pattern.len());
            if i + pattern.len() <= at {
                assert(between.subrange(i - from, i - from + pattern.len()) =~= window);
                assert(occurs_at(between, pattern, i - from));
            } else {
                let k = i + pattern.len() - 1 - at;
                assert(rest.subrange(0, pattern.len() as int)[k] == rest[k]);
                assert(window[pattern.len() - 1] == rest[k]);
            }
        }
    }
    lemma_find(s, pattern, from);
}

/// A text holds a character exactly where the character stands in it.
pub proof fn lemma_contains_mark(s: Seq<char>, mark: char)
    ensures
        contains(s, seq![mark]) == s.contains(mark),
{
    lemma_find(s, seq![mark], 0);
    if let Some(at) = find(s, seq![mark]) {
        assert(s.subrange(at, at + 1)[0] == s[at]);
    }
    if s.contains(mark) {
        let at = choose|at: int| 0 <= at < s.len() && s[at] == mark;
        assert(s.subrange(at, at + 1) =~= seq![mark]);
        assert(occurs_at(s, seq![mark], at));
    }
}

/// A character that is put behind a text without it is first found there.
pub proof fn lemma_find_mark(before: Seq<char>, mark: char, rest: Seq<char>)
    requires
        !before.contains(mark),
    ensures
        find(before + seq![mark] + rest, seq![mark]) == Some(before.len() as int),
{
    let pattern = seq![mark];
    let tail = pattern + rest;
    lemma_contains_mark(before, mark);
    assert(tail.subrange(0, 1) =~= pattern);
    assert(Seq::<char>::empty() + before + tail =~= before + pattern + rest);
    lemma_find_after(Seq::empty(), before, tail, pattern);
}

/// What is left of a text that is trimmed: a part of it, which neither starts
/// nor ends with a character of the set.
pub proof fn lemma_trim(s: Seq<char>, set: CharSet)
    ensures
        forall|c: char| #[trigger] trim_set(s, set).contains(c) ==> s.contains(c),
        trim_set(s, set).len() > 0 ==> !set.has(trim_set(s, set).first()) && !set.has(
            trim_set(s, set).last(),
        ),
{
    let start = trim_start(s, set);
    lemma_trim_start(s, set);
    lemma_trim_end(start, set);
    assert forall|c: char| #[trigger] trim_set(s, set).contains(c) implies s.contains(c) by {
        let k = choose|k: int| 0 <= k < trim_set(s, set).len() && trim_set(s, set)[k] == c;
        assert(start[k] == c);
        assert(s[s.len() - start.len() + k] == c);
    }
}

/// Trimming the start leaves a suffix.
pub proof fn lemma_trim_start(s: Seq<char>, set: CharSet)
    ensures
        trim_start(s, set).len() <= s.len(),
        trim_start(s, set) == s.skip(s.len() - trim_start(s, set).len()),
        trim_start(s, set).len() > 0 ==> !set.has(trim_start(s, set).first()),
        forall|i: int| 0 <= i < s.len() - trim_start(s, set).len() ==> set.has(#[trigger] s[i]),
    decreases s.len(),
{
    if s.len() > 0 && set.has(s.first()) {
        let rest = s.drop_first();
        lemma_trim_start(rest, set);
        assert forall|i: int| 0 <= i < s.len() - trim_start(s, set).len() implies set.has(
            #[trigger] s[i],
        ) by {
            if i > 0 {
                assert(rest[i - 1] == s[i]);
            }
        }
    }
}

/// The first word of a text that starts with white space and a word.
pub proof fn lemma_first_word(blank: Seq<char>, word: Seq<char>, rest: Seq<char>)
    requires
        forall|i: int| 0 <= i < blank.len() ==> white_space(#[trigger] blank[i]),
        forall|i: int| 0 <= i < word.len() ==> !white_space(#[trigger] word[i]),
        word.len() > 0,
        rest.len() > 0 ==> white_space(rest.first()),
    ensures
        first_word(blank + word + rest) == word,
    decreases blank.len() + word.len(),
{
    let whole = blank + word + rest;
    if blank.len() > 0 {
        assert(whole.first() == blank[0]);
        assert(whole.drop_first() =~= blank.drop_first() + word + rest);
        lemma_first_word(blank.drop_first(), word, rest);
    } else {
        let tail = whole.drop_first();
        assert(whole.first() == word[0]);
        assert(trim_start(whole, CharSet::Blank) == whole);
        if word.len() > 1 {
            assert(tail =~= blank + word.drop_first() + rest);
            assert(tail.first() == word.drop_first()[0]);
            lemma_first_word(blank, word.drop_first(), rest);
        } else {
            assert(tail =~= rest);
            assert(prefix_without(rest, CharSet::Blank) =~= Seq::empty());
        }
        assert(word =~= seq![word[0]] + word.drop_first());
        assert(first_word(whole) =~= word);
    }
}

/// Trimming the end leaves a prefix.
pub proof fn lemma_trim_end(s: Seq<char>, set: CharSet)
    ensures
        trim_end(s, set).len() <= s.len(),
        trim_end(s, set) == s.take(trim_end(s, set).len() as int),
        trim_end(s, set).len() > 0 ==> !set.has(trim_end(s, set).last()),
        forall|i: int| trim_end(s, set).len() <= i < s.len() ==> set.has(#[trigger] s[i]),
    decreases s.len(),
{
    if s.len() > 0 && set.has(s.last()) {
        let rest = s.drop_last();
        lemma_trim_end(rest, set);
        assert forall|i: int| trim_end(s, set).len() <= i < s.len() implies set.has(
            #[trigger] s[i],
        ) by {
            if i < rest.len() {
                assert(rest[i] == s[i]);
            }
        }
    }
}

/// What follows the last mark of a text, where the text is given in three parts.
pub proof fn lemma_after_last(head: Seq<char>, tail: Seq<char>, mark: char)
    requires
        !tail.contains(mark),
    ensures
        after_last(head + seq![mark] + tail, mark) == tail,
    decreases tail.len(),
{
    let whole = head + seq![mark] + tail;
    if tail.len() > 0 {
        let shorter = tail.drop_last();
        assert(whole.drop_last() =~= head + seq![mark] + shorter);
        assert forall|i: int| 0 <= i < shorter.len() implies shorter[i] != mark by {
            assert(tail.contains(tail[i]));
        }
        lemma_after_last(head, shorter, mark);
        assert(tail.contains(tail.last()));
        assert(shorter.push(tail.last()) =~= tail);
    } else {
        assert(whole.last() == mark);
        assert(tail =~= Seq::empty());
    }
}

/// The characters of `s`.
pub fn chars_of(s: &str) -> (chars: Vec<char>)
    ensures
        chars@ == s@,
{
    let mut chars: Vec<char> = Vec::new();
    for c in it: s.chars()
        invariant
            it.seq() == s@,
            chars@ == s@.take(it.index()),
    {
        chars.push(c);
    }
    chars
}

/// The text that `chars` spells.
pub fn text_of(chars: &[char]) -> (s: String)
    ensures
        s@ == chars@,
{
    let mut s = String::new();
    let mut i: usize = 0;
    while i < chars.len()
        invariant
            i <= chars@.len(),
            s@ == chars@.take(i as int),
        decreases chars@.len() - i,
    {
        s.push(chars[i]);
        i += 1;
    }
    s
}

/// `String::push` appends the character to the text.
pub assume_specification[ String::push ](s: &mut String, c: char)
    ensures
        final(s)@ == old(s)@.push(c),
;

/// The lower case form of an ASCII letter; any other character as it is.
pub fn to_ascii_lower(c: char) -> (lower: char)
    ensures
        lower == ascii_lower(c),
{
    if 'A' <= c && c <= 'Z' {
        (c as u8 + 32) as char
    } else {
        c
    }
}

/// `s` with its ASCII letters in lower case.
pub fn to_ascii_lowercase(s: &[char]) -> (lower: Vec<char>)
    ensures
        lower@ == ascii_lowercase(s@),
{
    let mut lower: Vec<char> = Vec::new();
    let mut i: usize = 0;
    while i < s.len()
        invariant
            i <= s@.len(),
            lower@ == ascii_lowercase(s@).take(i as int),
        decreases s@.len() - i,
    {
        lower.push(to_ascii_lower(s[i]));
        i += 1;
    }
    lower
}

/// Whether two texts are the same.
pub fn same_text(a: &str, b: &str) -> (yes: bool)
    ensures
        yes == (a@ == b@),
{
    let x = a.as_bytes();
    let y = b.as_bytes();
    proof {
        vstd::utf8::encode_utf8_decode_utf8(a@);
        vstd::utf8::encode_utf8_decode_utf8(b@);
    }
    if x.len() != y.len() {
        return false;
    }
    let mut i: usize = 0;
    while i < x.len()
        invariant
            i <= x@.len(),
            x@.len() == y@.len(),
            x@ == vstd::utf8::encode_utf8(a@),
            y@ == vstd::utf8::encode_utf8(b@),
            x@.take(i as int) == y@.take(i as int),
        decreases x@.len() - i,
    {
        if x[i] != y[i] {
            return false;
        }
        assert(x@.take(i + 1) =~= x@.take(i as int).push(x@[i as int]));
        assert(y@.take(i + 1) =~= y@.take(i as int).push(y@[i as int]));
        i += 1;
    }
    assert(x@.take(i as int) =~= x@);
    assert(y@.take(i as int) =~= y@);
    true
}

/// The first position from `from` on at which `pattern` stands in `s`.
pub fn position_from(s: &[char], pattern: &[char], from: usize) -> (at: Option<usize>)
    requires
        from <= s@.len(),
    ensures
        match at {
            Some(i) => find_from(s@, pattern@, from as int) == Some(i as int),
            None => find_from(s@, pattern@, from as int) is None,
        },
{
    if pattern.len() > s.len() - from {
        return None;
    }
    let last: usize = s.len() - pattern.len();
    let mut i: usize = from;
    loop
        invariant
            i <= last,
            last + pattern@.len() == s@.len(),
            find_from(s@, pattern@, from as int) == find_from(s@, pattern@, i as int),
        decreases last - i,
    {
        if stands_at(s, pattern, i) {
            return Some(i);
        }
        if i == last {
            assert(find_from(s@, pattern@, i + 1) is None);
            return None;
        }
        i += 1;
    }
}

/// The first position at which `pattern` stands in `s`.
pub fn position(s: &[char], pattern: &[char]) -> (at: Option<usize>)
    ensures
        match at {
            Some(i) => find(s@, pattern@) == Some(i as int),
            None => find(s@, pattern@) is None,
        },
{
    position_from(s, pattern, 0)
}

/// Whether `pattern` stands anywhere in `s`.
pub fn has_text(s: &[char], pattern: &[char]) -> (yes: bool)
    ensures
        yes == contains(s@, pattern@),
{
    position(s, pattern).is_some()
}

fn stands_at(s: &[char], pattern: &[char], at: usize) -> (yes: bool)
    requires
        at + pattern@.len() <= s@.len(),
    ensures
        yes == occurs_at(s@, pattern@, at as int),
{
    let length: usize = s.len();
    let ghost window = s@.subrange(at as int, at + pattern@.len());
    let mut i: usize = 0;
    while i < pattern.len()
        invariant
            i <= pattern@.len(),
            at + pattern@.len() <= length == s@.len(),
            window == s@.subrange(at as int, at + pattern@.len()),
            forall|j: int| 0 <= j < i ==> window[j] == pattern@[j],
        decreases pattern@.len() - i,
    {
        if s[at + i] != pattern[i] {
            assert(window[i as int] != pattern@[i as int]);
            return false;
        }
        i += 1;
    }
    assert(window =~= pattern@);
    true
}

/// The part of `s` before the first `pattern`, all of `s` where there is none.
pub fn text_before<'a>(s: &'a [char], pattern: &[char]) -> (part: &'a [char])
    ensures
        part@ == before(s@, pattern@),
{
    proof {
        lemma_find(s@, pattern@, 0);
    }
    match position(s, pattern) {
        Some(at) => slice_subrange(s, 0, at),
        None => s,
    }
}

/// The part of `s` after the first `pattern`.
pub fn text_after<'a>(s: &'a [char], pattern: &[char]) -> (part: Option<&'a [char]>)
    ensures
        match part {
            Some(p) => after(s@, pattern@) == Some(p@),
            None => after(s@, pattern@) is None,
        },
{
    proof {
        lemma_find(s@, pattern@, 0);
    }
    let length: usize = s.len();
    match position(s, pattern) {
        Some(at) => Some(slice_subrange(s, at + pattern.len(), length)),
        None => None,
    }
}

/// The part of `s` between the first `pattern` and the next one, or the end.
pub fn text_second<'a>(s: &'a [char], pattern: &[char]) -> (part: Option<&'a [char]>)
    ensures
        match part {
            Some(p) => second_piece(s@, pattern@) == Some(p@),
            None => second_piece(s@, pattern@) is None,
        },
{
    match text_after(s, pattern) {
        Some(rest) => Some(text_before(rest, pattern)),
        None => None,
    }
}

/// The part of `s` after the last `mark`, all of `s` where there is none.
pub fn text_after_last<'a>(s: &'a [char], mark: char) -> (part: &'a [char])
    ensures
        part@ == after_last(s@, mark),
{
    let mut i: usize = s.len();
    assert(s@.take(i as int) =~= s@);
    assert(after_last(s@, mark) + s@.skip(i as int) =~= after_last(s@, mark));
    while i > 0
        invariant
            i <= s@.len(),
            after_last(s@, mark) == after_last(s@.take(i as int), mark) + s@.skip(i as int),
            after_last(s@, mark).len() >= s@.len() - i,
        decreases i,
    {
        let ghost head = s@.take(i as int);
        if s[i - 1] == mark {
            assert(head.last() == mark);
            assert(after_last(s@, mark) =~= s@.skip(i as int));
            return slice_subrange(s, i, s.len());
        }
        assert(head.drop_last() =~= s@.take(i - 1));
        assert(s@.skip(i - 1) =~= seq![s@[i - 1]] + s@.skip(i as int));
        i -= 1;
        assert(after_last(s@, mark) =~= after_last(s@.take(i as int), mark) + s@.skip(i as int));
    }
    assert(s@.skip(0) =~= s@);
    assert(after_last(s@, mark) =~= s@);
    s
}

/// `s` without the characters of `set` that it starts with.
pub fn text_trim_start<'a>(s: &'a [char], set: CharSet) -> (part: &'a [char])
    ensures
        part@ == trim_start(s@, set),
{
    let mut i: usize = 0;
    assert(s@.skip(0) =~= s@);
    while i < s.len() && set.holds(s[i])
        invariant
            i <= s@.len(),
            trim_start(s@, set) == trim_start(s@.skip(i as int), set),
        decreases s@.len() - i,
    {
        assert(s@.skip(i as int).drop_first() =~= s@.skip(i + 1));
        i += 1;
    }
    slice_subrange(s, i, s.len())
}

/// `s` without the characters of `set` that it ends with.
pub fn text_trim_end<'a>(s: &'a [char], set: CharSet) -> (part: &'a [char])
    ensures
        part@ == trim_end(s@, set),
{
    let mut i: usize = s.len();
    assert(s@.take(s@.len() as int) =~= s@);
    while i > 0 && set.holds(s[i - 1])
        invariant
            i <= s@.len(),
            trim_end(s@, set) == trim_end(s@.take(i as int), set),
        decreases i,
    {
        assert(s@.take(i as int).drop_last() =~= s@.take(i - 1));
        i -= 1;
    }
    slice_subrange(s, 0, i)
}

/// `s` without the characters of `set` at either end.
pub fn text_trim_set<'a>(s: &'a [char], set: CharSet) -> (part: &'a [char])
    ensures
        part@ == trim_set(s@, set),
{
    text_trim_end(text_trim_start(s, set), set)
}

/// `s` without the white space at either end.
pub fn text_trim<'a>(s: &'a [char]) -> (part: &'a [char])
    ensures
        part@ == trim(s@),
{
    text_trim_set(s, CharSet::Blank)
}

/// The longest prefix of `s` that holds no character of `set`.
pub fn text_prefix_without<'a>(s: &'a [char], set: CharSet) -> (part: &'a [char])
    ensures
        part@ == prefix_without(s@, set),
{
    let mut i: usize = 0;
    assert(s@.skip(0) =~= s@);
    while i < s.len() && !set.holds(s[i])
        invariant
            i <= s@.len(),
            prefix_without(s@, set) == s@.take(i as int) + prefix_without(s@.skip(i as int), set),
        decreases s@.len() - i,
    {
        assert(s@.skip(i as int).drop_first() =~= s@.skip(i + 1));
        assert(s@.take(i + 1) =~= s@.take(i as int) + seq![s@[i as int]]);
        i += 1;
        assert(prefix_without(s@, set) =~= s@.take(i as int) + prefix_without(
            s@.skip(i as int),
            set,
        ));
    }
    assert(prefix_without(s@, set) =~= s@.take(i as int));
    slice_subrange(s, 0, i)
}

/// The first word of `s`: what stands between its leading white space and the
/// next.
pub fn text_first_word<'a>(s: &'a [char]) -> (part: &'a [char])
    ensures
        part@ == first_word(s@),
{
    text_prefix_without(text_trim_start(s, CharSet::Blank), CharSet::Blank)
}

/// The entries of the comma separated list `s`, trimmed; empty ones are left out.
pub fn text_listed<'a>(s: &'a [char]) -> (entries: Vec<&'a [char]>)
    ensures
        entries@.map_values(|e: &[char]| e@) == listed(s@),
{
    let comma: [char; 1] = [','];
    let ghost view = |e: &[char]| e@;
    let mut entries: Vec<&'a [char]> = Vec::new();
    let mut rest: &'a [char] = s;
    assert(comma@ =~= seq![',']);
    assert(entries@.map_values(view) =~= Seq::<Seq<char>>::empty());
    loop
        invariant
            comma@ == seq![','],
            view == (|e: &[char]| e@),
            listed(s@) == entries@.map_values(view) + listed(rest@),
        decreases rest@.len(),
    {
        let head = text_trim(text_before(rest, &comma));
        let ghost earlier = entries@.map_values(view);
        if head.len() > 0 {
            entries.push(head);
            assert(entries@.map_values(view) =~= earlier.push(head@));
        }
        match text_after(rest, &comma) {
            Some(tail) => {
                proof {
                    lemma_find(rest@, seq![','], 0);
                    assert(listed(s@) =~= entries@.map_values(view) + listed(tail@));
                }
                rest = tail;
            },
            None => {
                assert(listed(s@) =~= entries@.map_values(view));
                return entries;
            },
        }
    }
}

/// The entries of two comma separated lists, put together with a comma, are
/// those of the first, followed by those of the second.
pub proof fn law_lists_add_up(first: Seq<char>, second: Seq<char>)
    ensures
        listed(first + seq![','] + second) == listed(first) + listed(second),
    decreases first.len(),
{
    let comma = seq![','];
    let whole = first + comma + second;
    lemma_find(first, comma, 0);
    match find(first, comma) {
        Some(at) => {
            let rest = first.skip(at + 1);
            assert(first.subrange(at, at + 1)[0] == ',');
            assert(whole.subrange(at, at + 1) =~= comma);
            assert forall|i: int| 0 <= i < at implies !occurs_at(whole, comma, i) by {
                assert(whole.subrange(i, i + 1) =~= first.subrange(i, i + 1));
                assert(!occurs_at(first, comma, i));
            }
            lemma_find(whole, comma, 0);
            assert(occurs_at(whole, comma, at));
            assert(whole.take(at) =~= first.take(at));
            assert(whole.skip(at + 1) =~= rest + comma + second);
            law_lists_add_up(rest, second);
        },
        None => {
            let tail = comma + second;
            assert(tail.subrange(0, 1) =~= comma);
            assert(Seq::<char>::empty() + first + tail =~= whole);
            lemma_find_after(Seq::empty(), first, tail, comma);
            assert(whole.take(first.len() as int) =~= first);
            assert(whole.skip(first.len() as int + 1) =~= second);
        },
    }
    assert(listed(whole) =~= listed(first) + listed(second));
}

/// A pattern stands at a place exactly where all its characters stand from
/// there on.
pub proof fn law_occurs_by_characters(s: Seq<char>, pattern: Seq<char>, at: int)
    ensures
        occurs_at(s, pattern, at) <==> {
            &&& 0 <= at
            &&& at + pattern.len() <= s.len()
            &&& forall|k: int| 0 <= k < pattern.len() ==> s[at + k] == #[trigger] pattern[k]
        },
{
    if 0 <= at && at + pattern.len() <= s.len() {
        let window = s.subrange(at, at + pattern.len());
        if window == pattern {
            assert forall|k: int| 0 <= k < pattern.len() implies s[at + k]
                == #[trigger] pattern[k] by {
                assert(window[k] == s[at + k]);
            }
        }
        if forall|k: int| 0 <= k < pattern.len() ==> s[at + k] == #[trigger] pattern[k] {
            assert(window =~= pattern);
        }
    }
}

/// A text is cut at the first place where the pattern stands: the part before
/// it, the pattern and the part after it make up the text. A text in which the
/// pattern stands nowhere is not cut.
pub proof fn law_text_is_cut_at_the_first_pattern(s: Seq<char>, pattern: Seq<char>)
    ensures
        match after(s, pattern) {
            Some(rest) => s == before(s, pattern) + pattern + rest && forall|i: int|
                0 <= i < before(s, pattern).len() ==> !#[trigger] occurs_at(s, pattern, i),
            None => before(s, pattern) == s && forall|i: int|
                0 <= i ==> !#[trigger] occurs_at(s, pattern, i),
        },
        contains(s, pattern) <==> exists|i: int| #[trigger] occurs_at(s, pattern, i),
{
    lemma_find(s, pattern, 0);
    if let Some(at) = find(s, pattern) {
        assert(s =~= before(s, pattern) + pattern + s.skip(at + pattern.len()));
    }
}

/// The second piece of a text goes from the end of the first pattern to the
/// start of the next one, or to the end of the text.
pub proof fn law_second_piece_lies_between(s: Seq<char>, pattern: Seq<char>)
    ensures
        second_piece(s, pattern) is Some <==> exists|i: int| #[trigger] occurs_at(s, pattern, i),
        second_piece(s, pattern) matches Some(piece) ==> {
            let start = (before(s, pattern).len() + pattern.len()) as int;
            let end = start + piece.len();
            &&& end <= s.len()
            &&& piece == s.subrange(start, end)
            &&& forall|i: int| start <= i < end ==> !#[trigger] occurs_at(s, pattern, i)
            &&& end < s.len() ==> occurs_at(s, pattern, end)
        },
{
    lemma_find(s, pattern, 0);
    law_text_is_cut_at_the_first_pattern(s, pattern);
    if let Some(rest) = after(s, pattern) {
        let start = (before(s, pattern).len() + pattern.len()) as int;
        let piece = before(rest, pattern);
        lemma_find(rest, pattern, 0);
        assert(s.skip(start) =~= rest);
        assert(piece =~= s.subrange(start, start + piece.len()));
        assert forall|i: int| start <= i implies occurs_at(rest, pattern, i - start)
            == #[trigger] occurs_at(s, pattern, i) by {
            if i + pattern.len() <= s.len() {
                assert(s.subrange(i, i + pattern.len()) =~= rest.subrange(
                    i - start,
                    i - start + pattern.len(),
                ));
            }
        }
        assert forall|i: int| start <= i < start + piece.len() implies !#[trigger] occurs_at(
            s,
            pattern,
            i,
        ) by {
            assert(!occurs_at(rest, pattern, i - start));
        }
        if start + piece.len() < s.len() {
            assert(occurs_at(rest, pattern, piece.len() as int));
            assert(occurs_at(s, pattern, start + piece.len()));
        }
    }
}

/// Trimming takes off all characters of the set at either end, and no others.
pub proof fn law_trim_takes_off_the_set_only(s: Seq<char>, set: CharSet)
    ensures
        exists|i: int, j: int|
            {
                &&& 0 <= i <= j <= s.len()
                &&& trim_set(s, set) == #[trigger] s.subrange(i, j)
                &&& forall|k: int| 0 <= k < i ==> set.has(#[trigger] s[k])
                &&& forall|k: int| j <= k < s.len() ==> set.has(#[trigger] s[k])
                &&& i < j ==> !set.has(s[i]) && !set.has(s[j - 1])
            },
        trim(s) == trim_set(s, CharSet::Blank),
{
    let start = trim_start(s, set);
    let end = trim_end(start, set);
    lemma_trim_start(s, set);
    lemma_trim_end(start, set);
    let i = s.len() - start.len();
    let j = i + end.len();
    assert(s.subrange(i, j) =~= end);
    assert forall|k: int| j <= k < s.len() implies set.has(#[trigger] s[k]) by {
        assert(start[k - i] == s[k]);
    }
    if i < j {
        assert(end.first() == start.first());
        assert(start.first() == s[i]);
        assert(end.last() == s[j - 1]);
    }
}

/// The sets by which text is trimmed.
pub proof fn law_members_of_sets(c: char, one: char)
    ensures
        CharSet::Blank.has(c) == white_space(c),
        CharSet::TypeTail.has(c) <==> seq!['<', ',', '>'].contains(c),
        CharSet::Only(one).has(c) <==> c == one,
{
    let tails = seq!['<', ',', '>'];
    assert(tails[0] == '<' && tails[1] == ',' && tails[2] == '>');
}

/// The prefix without a set goes up to the first character of the set.
pub proof fn law_prefix_goes_up_to_the_set(s: Seq<char>, set: CharSet)
    ensures
        prefix_without(s, set).len() <= s.len(),
        prefix_without(s, set) == s.take(prefix_without(s, set).len() as int),
        forall|i: int| 0 <= i < prefix_without(s, set).len() ==> !set.has(#[trigger] s[i]),
        prefix_without(s, set).len() < s.len() ==> set.has(
            s[prefix_without(s, set).len() as int],
        ),
    decreases s.len(),
{
    if s.len() > 0 && !set.has(s.first()) {
        let rest = s.drop_first();
        let shorter = prefix_without(rest, set);
        let whole = prefix_without(s, set);
        law_prefix_goes_up_to_the_set(rest, set);
        assert forall|i: int| 0 <= i < whole.len() implies !set.has(#[trigger] s[i]) && whole[i]
            == s[i] by {
            if i > 0 {
                assert(rest[i - 1] == s[i]);
                assert(whole[i] == shorter[i - 1]);
                assert(shorter[i - 1] == rest.take(shorter.len() as int)[i - 1]);
            }
        }
        assert(whole =~= s.take(whole.len() as int));
        if whole.len() < s.len() {
            assert(rest[shorter.len() as int] == s[whole.len() as int]);
        }
    } else {
        assert(prefix_without(s, set) =~= s.take(0));
    }
}

/// A text of white space alone has no first word.
pub proof fn law_blank_text_has_no_word(blank: Seq<char>)
    requires
        forall|i: int| 0 <= i < blank.len() ==> white_space(#[trigger] blank[i]),
    ensures
        first_word(blank).len() == 0,
        trim(blank).len() == 0,
{
    lemma_trim_start(blank, CharSet::Blank);
    let rest = trim_start(blank, CharSet::Blank);
    if rest.len() > 0 {
        assert(rest.first() == blank[blank.len() - rest.len()]);
    }
}

/// What follows the last mark of a text holds no mark, and stands behind one;
/// a text without a mark is kept whole.
pub proof fn law_after_the_last_mark(s: Seq<char>, mark: char)
    ensures
        after_last(s, mark).len() <= s.len(),
        after_last(s, mark) == s.skip(s.len() - after_last(s, mark).len()),
        !after_last(s, mark).contains(mark),
        after_last(s, mark).len() < s.len() ==> s[s.len() - after_last(s, mark).len() - 1] == mark,
    decreases s.len(),
{
    let tail = after_last(s, mark);
    if s.len() > 0 && s.last() != mark {
        let rest = s.drop_last();
        let shorter = after_last(rest, mark);
        law_after_the_last_mark(rest, mark);
        assert(tail =~= s.skip(s.len() - tail.len())) by {
            assert forall|i: int| 0 <= i < tail.len() implies tail[i] == s[s.len() - tail.len()
                + i] by {
                if i < shorter.len() {
                    assert(tail[i] == shorter[i]);
                    assert(shorter[i] == rest.skip(rest.len() - shorter.len())[i]);
                }
            }
        }
        if tail.contains(mark) {
            let k = choose|k: int| 0 <= k < tail.len() && tail[k] == mark;
            if k < shorter.len() {
                assert(shorter[k] == mark);
            }
        }
        if tail.len() < s.len() {
            assert(rest[rest.len() - shorter.len() - 1] == mark);
        }
    } else {
        assert(tail =~= s.skip(s.len() - tail.len()));
    }
}

/// A list without a comma has one entry, the trimmed text, unless it is blank.
pub proof fn law_list_of_one_entry(s: Seq<char>)
    requires
        !s.contains(','),
    ensures
        trim(s).len() > 0 ==> listed(s) == seq![trim(s)],
        trim(s).len() == 0 ==> listed(s) == Seq::<Seq<char>>::empty(),
{
    lemma_contains_mark(s, ',');
    assert(seq![trim(s)] + Seq::<Seq<char>>::empty() =~= seq![trim(s)]);
}

/// Only the ASCII capitals change in lower case, each to the letter that stands
/// as many places after `a` as the capital stands after `A`.
pub proof fn law_lower_case_of_ascii(s: Seq<char>, i: int)
    requires
        0 <= i < s.len(),
    ensures
        ascii_lowercase(s).len() == s.len(),
        'A' <= s[i] && s[i] <= 'Z' ==> ascii_lowercase(s)[i] as int - 'a' as int == s[i] as int
            - 'A' as int,
        !('A' <= s[i] && s[i] <= 'Z') ==> ascii_lowercase(s)[i] == s[i],
{
}

/// The occurrences of a character in two texts add up; in a text of one
/// character there is one or none.
pub proof fn law_occurrences_add_up(first: Seq<char>, second: Seq<char>, mark: char, c: char)
    ensures
        occurrences(first + second, mark) == occurrences(first, mark) + occurrences(second, mark),
        occurrences(seq![c], mark) == if c == mark {
            1nat
        } else {
            0nat
        },
    decreases second.len(),
{
    reveal_with_fuel(occurrences, 2);
    assert(seq![c].drop_last() =~= Seq::empty());
    if second.len() == 0 {
        assert(first + second =~= first);
    } else {
        law_occurrences_add_up(first, second.drop_last(), mark, c);
        assert((first + second).drop_last() =~= first + second.drop_last());
    }
}

/// Trimming leaves what stands between characters of the set.
pub proof fn lemma_trim_set_around(
    space: Seq<char>,
    head: Seq<char>,
    blank: Seq<char>,
    set: CharSet,
)
    requires
        forall|i: int| 0 <= i < space.len() ==> set.has(#[trigger] space[i]),
        head.len() > 0 ==> !set.has(head.first()) && !set.has(head.last()),
        forall|i: int| 0 <= i < blank.len() ==> set.has(#[trigger] blank[i]),
    ensures
        trim_set(space + head + blank, set) == head,
{
    let s = space + head + blank;
    law_trim_takes_off_the_set_only(s, set);
    let (i, j) = choose|i: int, j: int|
        {
            &&& 0 <= i <= j <= s.len()
            &&& trim_set(s, set) == #[trigger] s.subrange(i, j)
            &&& forall|k: int| 0 <= k < i ==> set.has(#[trigger] s[k])
            &&& forall|k: int| j <= k < s.len() ==> set.has(#[trigger] s[k])
            &&& i < j ==> !set.has(s[i]) && !set.has(s[j - 1])
        };
    let start = space.len() as int;
    let end = start + head.len();
    if head.len() > 0 {
        assert(s[start] == head.first());
        assert(s[end - 1] == head.last());
        assert(i <= start && j >= end);
        if i < start {
            assert(s[i] == space[i]);
        }
        if j > end {
            assert(s[j - 1] == blank[j - 1 - end]);
        }
        assert(s.subrange(start, end) =~= head);
    } else if i < j {
        if i < start {
            assert(s[i] == space[i]);
        } else {
            assert(s[i] == blank[i - end]);
        }
    } else {
        assert(s.subrange(i, j) =~= head);
    }
}

/// Trimming leaves what stands between white space.
pub proof fn lemma_trim_around(space: Seq<char>, head: Seq<char>, blank: Seq<char>)
    requires
        forall|i: int| 0 <= i < space.len() ==> white_space(#[trigger] space[i]),
        head.len() > 0 ==> !white_space(head.first()) && !white_space(head.last()),
        forall|i: int| 0 <= i < blank.len() ==> white_space(#[trigger] blank[i]),
    ensures
        trim(space + head + blank) == head,
{
    lemma_trim_set_around(space, head, blank, CharSet::Blank);
}

/// Trimming the end takes off all characters of the set there, and no others.
pub proof fn law_end_is_trimmed(s: Seq<char>, tail: Seq<char>, set: CharSet)
    requires
        s.len() > 0 ==> !set.has(s.last()),
        forall|i: int| 0 <= i < tail.len() ==> set.has(#[trigger] tail[i]),
    ensures
        trim_end(s + tail, set) == s,
{
    let whole = s + tail;
    let left = trim_end(whole, set);
    lemma_trim_end(whole, set);
    if left.len() < s.len() {
        assert(set.has(whole[s.len() - 1]));
        assert(whole[s.len() - 1] == s.last());
    }
    if left.len() > s.len() {
        assert(left.last() == tail[left.len() - s.len() - 1]);
    }
    assert(left =~= s);
}

/// The characters that are white space.
pub proof fn law_white_space_characters(c: char)
    ensures
        white_space(c) <==> seq![
            '\u{9}',
            '\u{a}',
            '\u{b}',
            '\u{c}',
            '\u{d}',
            '\u{20}',
            '\u{85}',
            '\u{a0}',
            '\u{1680}',
            '\u{2000}',
            '\u{2001}',
            '\u{2002}',
            '\u{2003}',
            '\u{2004}',
            '\u{2005}',
            '\u{2006}',
            '\u{2007}',
            '\u{2008}',
            '\u{2009}',
            '\u{200a}',
            '\u{2028}',
            '\u{2029}',
            '\u{202f}',
            '\u{205f}',
            '\u{3000}',
        ].contains(c),
{
    let all = seq![
        '\u{9}',
        '\u{a}',
        '\u{b}',
        '\u{c}',
        '\u{d}',
        '\u{20}',
        '\u{85}',
        '\u{a0}',
        '\u{1680}',
        '\u{2000}',
        '\u{2001}',
        '\u{2002}',
        '\u{2003}',
        '\u{2004}',
        '\u{2005}',
        '\u{2006}',
        '\u{2007}',
        '\u{2008}',
        '\u{2009}',
        '\u{200a}',
        '\u{2028}',
        '\u{2029}',
        '\u{202f}',
        '\u{205f}',
        '\u{3000}',
    ];
    assert(all[0] == '\u{9}');
    assert(all[1] == '\u{a}');
    assert(all[2] == '\u{b}');
    assert(all[3] == '\u{c}');
    assert(all[4] == '\u{d}');
    assert(all[5] == '\u{20}');
    assert(all[6] == '\u{85}');
    assert(all[7] == '\u{a0}');
    assert(all[8] == '\u{1680}');
    assert(all[9] == '\u{2000}');
    assert(all[10] == '\u{2001}');
    assert(all[11] == '\u{2002}');
    assert(all[12] == '\u{2003}');
    assert(all[13] == '\u{2004}');
    assert(all[14] == '\u{2005}');
    assert(all[15] == '\u{2006}');
    assert(all[16] == '\u{2007}');
    assert(all[17] == '\u{2008}');
    assert(all[18] == '\u{2009}');
    assert(all[19] == '\u{200a}');
    assert(all[20] == '\u{2028}');
    assert(all[21] == '\u{2029}');
    assert(all[22] == '\u{202f}');
    assert(all[23] == '\u{205f}');
    assert(all[24] == '\u{3000}');
}

/// A pattern whose last character does not come earlier in it cuts a text out where
/// it was put: the second piece ends at the next pattern, or with the text.
pub proof fn law_second_piece_ends_at_the_next_pattern(
    head: Seq<char>,
    piece: Seq<char>,
    tail: Seq<char>,
    pattern: Seq<char>,
)
    requires
        pattern.len() > 0,
        forall|k: int| 0 <= k < pattern.len() - 1 ==> #[trigger] pattern[k] != pattern.last(),
        !contains(head, pattern),
        !contains(piece, pattern),
    ensures
        second_piece(head + pattern + piece + pattern + tail, pattern) == Some(piece),
        second_piece(head + pattern + piece, pattern) == Some(piece),
{
    let none = Seq::<char>::empty();
    let size = pattern.len() as int;
    let rest = piece + (pattern + tail);
    let whole = head + pattern + piece + pattern + tail;
    assert(whole =~= none + head + (pattern + rest));
    assert((pattern + rest).subrange(0, size) =~= pattern);
    lemma_find_after(none, head, pattern + rest, pattern);
    assert(whole.skip(head.len() + size) =~= rest);
    assert(rest =~= none + piece + (pattern + tail));
    assert((pattern + tail).subrange(0, size) =~= pattern);
    lemma_find_after(none, piece, pattern + tail, pattern);
    assert(rest.take(piece.len() as int) =~= piece);
    let short = head + pattern + piece;
    assert(short =~= none + head + (pattern + piece));
    assert((pattern + piece).subrange(0, size) =~= pattern);
    lemma_find_after(none, head, pattern + piece, pattern);
    assert(short.skip(head.len() + size) =~= piece);
}

} // verus!
