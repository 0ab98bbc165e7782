//! Text: searching, trimming, splitting and joining, over sequences of
//! characters.

use vstd::prelude::*;
use vstd::utf8::{decode_utf8, encode_utf8, is_char_boundary};

verus! {

/// `String::push`: appends one character.
pub assume_specification[ String::push ](s: &mut String, c: char)
    ensures
        final(s)@ == old(s)@.push(c),
;

// ---------------------------------------------------------------------------
// Views
// ---------------------------------------------------------------------------
/// The view of an optional string.
pub open spec fn text_view(text: Option<String>) -> Option<Seq<char>> {
    match text {
        Some(text) => Some(text@),
        None => None,
    }
}

/// The view of an optional string slice.
pub open spec fn str_view(text: Option<&str>) -> Option<Seq<char>> {
    match text {
        Some(text) => Some(text@),
        None => None,
    }
}

/// The views of a sequence of strings.
pub open spec fn texts(strings: Seq<String>) -> Seq<Seq<char>> {
    strings.map_values(|s: String| s@)
}

// ---------------------------------------------------------------------------
// Characters
// ---------------------------------------------------------------------------
/// The characters with the Unicode property `White_Space`.
pub open spec fn is_white_space(c: char) -> bool {
    ||| '\u{0009}' <= c <= '\u{000d}'
    ||| c == ' '
    ||| c == '\u{0085}'
    ||| c == '\u{00a0}'
    ||| c == '\u{1680}'
    ||| '\u{2000}' <= c <= '\u{200a}'
    ||| c == '\u{2028}'
    ||| c == '\u{2029}'
    ||| c == '\u{202f}'
    ||| c == '\u{205f}'
    ||| c == '\u{3000}'
}

/// Whether a character is white space.
pub fn white_space(c: char) -> (r: bool)
    ensures
        r == is_white_space(c),
{
    ('\u{0009}' <= c && c <= '\u{000d}') || c == ' ' || c == '\u{0085}' || c == '\u{00a0}' || c
        == '\u{1680}' || ('\u{2000}' <= c && c <= '\u{200a}') || c == '\u{2028}' || c == '\u{2029}'
        || c == '\u{202f}' || c == '\u{205f}' || c == '\u{3000}'
}

/// The lower-case letter of an ASCII capital; any other character unchanged.
pub open spec fn ascii_lower(c: char) -> char {
    if 'A' <= c <= 'Z' {
        ((c as u32) + 32) as char
    } else {
        c
    }
}

/// Lowers an ASCII capital.
pub fn lower_char(c: char) -> (r: char)
    ensures
        r == ascii_lower(c),
{
    if 'A' <= c && c <= 'Z' {
        ((c as u8) + 32) as char
    } else {
        c
    }
}

/// A set of characters that trimming removes.
#[derive(Clone, Copy)]
pub enum CharClass {
    /// White space.
    Space,
    /// One character.
    Only(char),
}

impl CharClass {
    /// Whether the class holds a character.
    pub open spec fn holds(self, c: char) -> bool {
        match self {
            CharClass::Space => is_white_space(c),
            CharClass::Only(only) => c == only,
        }
    }

    /// Whether the class holds a character.
    pub fn has(self, c: char) -> (r: bool)
        ensures
            r == self.holds(c),
    {
        match self {
            CharClass::Space => white_space(c),
            CharClass::Only(only) => c == only,
        }
    }
}

// ---------------------------------------------------------------------------
// What the operations mean
// ---------------------------------------------------------------------------
/// A text with its ASCII capitals lowered.
pub open spec fn lowered(s: Seq<char>) -> Seq<char> {
    s.map_values(|c: char| ascii_lower(c))
}

/// Whether `part` stands in `s` at index `at`.
pub open spec fn stands_at(s: Seq<char>, part: Seq<char>, at: int) -> bool {
    0 <= at && at + part.len() <= s.len() && s.subrange(at, at + part.len()) == part
}

/// Whether `part` stands somewhere in `s`.
pub open spec fn contains_text(s: Seq<char>, part: Seq<char>) -> bool {
    exists|at: int| stands_at(s, part, at)
}

/// Whether `s` begins with `prefix`.
pub open spec fn begins_with(s: Seq<char>, prefix: Seq<char>) -> bool {
    prefix.len() <= s.len() && s.take(prefix.len() as int) == prefix
}

/// Whether `s` ends with `suffix`.
pub open spec fn ends_with(s: Seq<char>, suffix: Seq<char>) -> bool {
    suffix.len() <= s.len() && s.skip(s.len() - suffix.len()) == suffix
}

/// `s` without the characters of `class` at its front.
pub open spec fn trim_front(s: Seq<char>, class: CharClass) -> Seq<char>
    decreases s.len(),
{
    if s.len() > 0 && class.holds(s[0]) {
        trim_front(s.skip(1), class)
    } else {
        s
    }
}

/// `s` without the characters of `class` at its back.
pub open spec fn trim_back(s: Seq<char>, class: CharClass) -> Seq<char>
    decreases s.len(),
{
    if s.len() > 0 && class.holds(s.last()) {
        trim_back(s.drop_last(), class)
    } else {
        s
    }
}

/// `s` without the characters of `class` at either end.
pub open spec fn trim_both(s: Seq<char>, class: CharClass) -> Seq<char> {
    trim_back(trim_front(s, class), class)
}

/// `s` without white space at either end.
pub open spec fn trimmed(s: Seq<char>) -> Seq<char> {
    trim_both(s, CharClass::Space)
}

/// The index of the first `c` in `s` from `from` on, or the length of `s`.
pub open spec fn position(s: Seq<char>, c: char, from: int) -> int
    decreases s.len() - from,
{
    if from >= s.len() {
        s.len() as int
    } else if s[from] == c {
        from
    } else {
        position(s, c, from + 1)
    }
}

/// A line without the carriage return that precedes its line feed.
pub open spec fn without_cr(line: Seq<char>) -> Seq<char> {
    if line.len() > 0 && line.last() == '\r' {
        line.drop_last()
    } else {
        line
    }
}

/// The lines of `s`: each ends at a line feed, or at a carriage return and a
/// line feed; the last may end with `s`. No line begins at the end of `s`.
pub open spec fn lines_of(s: Seq<char>) -> Seq<Seq<char>>
    decreases s.len(),
{
    if s.len() == 0 {
        Seq::empty()
    } else {
        proof {
            lemma_position_bounds(s, '\n', 0);
        }
        let end = position(s, '\n', 0);
        if end == s.len() {
            seq![s]
        } else {
            seq![without_cr(s.take(end))] + lines_of(s.skip(end + 1))
        }
    }
}

/// The length of the longest stretch at the front of `s` without white space.
pub open spec fn word_length(s: Seq<char>) -> nat
    decreases s.len(),
{
    if s.len() == 0 || is_white_space(s[0]) {
        0
    } else {
        1 + word_length(s.skip(1))
    }
}

/// The stretches of `s` between white space.
pub open spec fn words_of(s: Seq<char>) -> Seq<Seq<char>>
    decreases s.len(),
{
    if s.len() == 0 {
        Seq::empty()
    } else if is_white_space(s[0]) {
        words_of(s.skip(1))
    } else {
        proof {
            lemma_word_length_bounds(s);
        }
        let end = word_length(s) as int;
        seq![s.take(end)] + words_of(s.skip(end))
    }
}

/// The parts in a row, with `sep` between each two.
pub open spec fn joined(parts: Seq<Seq<char>>, sep: Seq<char>) -> Seq<char>
    decreases parts.len(),
{
    if parts.len() == 0 {
        Seq::empty()
    } else if parts.len() == 1 {
        parts[0]
    } else {
        joined(parts.drop_last(), sep) + sep + parts.last()
    }
}

/// The parts without those that stand further to the front too.
pub open spec fn deduplicated(parts: Seq<Seq<char>>) -> Seq<Seq<char>>
    decreases parts.len(),
{
    if parts.len() == 0 {
        Seq::empty()
    } else {
        let before = deduplicated(parts.drop_last());
        if before.contains(parts.last()) {
            before
        } else {
            before.push(parts.last())
        }
    }
}

/// The number of bytes of `s` in UTF-8.
pub open spec fn byte_length(s: Seq<char>) -> nat {
    encode_utf8(s).len()
}

/// Whether the first `n` bytes of `s` are whole characters.
pub open spec fn cuts_cleanly(s: Seq<char>, n: int) -> bool {
    byte_length(s) <= n || is_char_boundary(encode_utf8(s), n)
}

/// The characters that the first `n` bytes of `s` hold.
pub open spec fn byte_prefix(s: Seq<char>, n: int) -> Seq<char> {
    decode_utf8(encode_utf8(s).subrange(0, n))
}

/// Whether `a` comes before `b` in the order of code points, character by
/// character.
pub open spec fn text_less(a: Seq<char>, b: Seq<char>) -> bool
    decreases a.len(),
{
    if b.len() == 0 {
        false
    } else if a.len() == 0 {
        true
    } else if a[0] != b[0] {
        a[0] < b[0]
    } else {
        text_less(a.skip(1), b.skip(1))
    }
}

/// The digit of a number below ten.
pub open spec fn digit(d: nat) -> char {
    ((48 + d) as u32) as char
}

/// A natural number in decimal.
pub open spec fn decimal(n: nat) -> Seq<char>
    decreases n,
{
    if n < 10 {
        seq![digit(n)]
    } else {
        decimal(n / 10).push(digit(n % 10))
    }
}

/// An integer in decimal, a minus sign before a negative one.
pub open spec fn signed_decimal(n: int) -> Seq<char> {
    if n < 0 {
        seq!['-'] + decimal((-n) as nat)
    } else {
        decimal(n as nat)
    }
}

// ---------------------------------------------------------------------------
// Facts
// ---------------------------------------------------------------------------
/// A position lies between where the search begins and the end.
pub proof fn lemma_position_bounds(s: Seq<char>, c: char, from: int)
    requires
        0 <= from <= s.len(),
    ensures
        from <= position(s, c, from) <= s.len(),
        position(s, c, from) < s.len() ==> s[position(s, c, from)] == c,
    decreases s.len() - from,
{
    if from < s.len() && s[from] != c {
        lemma_position_bounds(s, c, from + 1);
    }
}

/// A word is no longer than the text it begins.
pub proof fn lemma_word_length_bounds(s: Seq<char>)
    ensures
        word_length(s) <= s.len(),
        s.len() > 0 && !is_white_space(s[0]) ==> word_length(s) >= 1,
    decreases s.len(),
{
    if s.len() > 0 && !is_white_space(s[0]) {
        lemma_word_length_bounds(s.skip(1));
    }
}

/// Nothing stands twice in what is left, nothing is lost, and what stands first
/// stays first.
pub proof fn lemma_deduplicated(parts: Seq<Seq<char>>)
    ensures
        deduplicated(parts).no_duplicates(),
        forall|part: Seq<char>| #[trigger]
            deduplicated(parts).contains(part) <==> parts.contains(part),
        parts.len() > 0 ==> deduplicated(parts).len() > 0 && deduplicated(parts)[0] == parts[0],
    decreases parts.len(),
{
    if parts.len() > 0 {
        let rest = parts.drop_last();
        let before = deduplicated(rest);
        let after = deduplicated(parts);
        lemma_deduplicated(rest);
        assert(parts =~= rest.push(parts.last()));
        assert forall|part: Seq<char>| #[trigger]
            deduplicated(parts).contains(part) <==> parts.contains(part) by {
            if after.contains(part) {
                let i = after.index_of(part);
                if i < before.len() {
                    assert(before[i] == part);
                    assert(before.contains(part));
                    let j = rest.index_of(part);
                    assert(parts[j] == part);
                } else {
                    assert(parts[parts.len() - 1] == part);
                }
            }
            if parts.contains(part) {
                let j = parts.index_of(part);
                if j < rest.len() {
                    assert(rest[j] == part);
                    assert(before.contains(part));
                    let i = before.index_of(part);
                    assert(after[i] == part);
                } else if !before.contains(part) {
                    assert(after[before.len() as int] == part);
                }
            }
        }
    }
}

/// What is left of a text without the characters at its front begins with another
/// one, and is its back.
proof fn lemma_trim_front(s: Seq<char>, class: CharClass)
    ensures
        trim_front(s, class).len() <= s.len(),
        trim_front(s, class).len() > 0 ==> !class.holds(trim_front(s, class)[0]),
        trim_front(s, class).len() > 0 ==> trim_front(s, class).last() == s.last(),
    decreases s.len(),
{
    if s.len() > 0 && class.holds(s[0]) {
        lemma_trim_front(s.skip(1), class);
    }
}

/// What is left of a text without the characters at its back ends with another one,
/// and is its front.
proof fn lemma_trim_back(s: Seq<char>, class: CharClass)
    ensures
        trim_back(s, class).len() <= s.len(),
        trim_back(s, class).len() > 0 ==> !class.holds(trim_back(s, class).last()),
        trim_back(s, class).len() > 0 ==> trim_back(s, class)[0] == s[0],
    decreases s.len(),
{
    if s.len() > 0 && class.holds(s.last()) {
        lemma_trim_back(s.drop_last(), class);
    }
}

/// A trimmed text has no white space at its ends.
pub proof fn lemma_trimmed(s: Seq<char>)
    ensures
        trimmed(s).len() > 0 ==> !is_white_space(trimmed(s)[0]) && !is_white_space(
            trimmed(s).last(),
        ),
{
    lemma_trim_front(s, CharClass::Space);
    lemma_trim_back(s, CharClass::Space);
    lemma_trim_front(trim_back(s, CharClass::Space), CharClass::Space);
    lemma_trim_back(trim_front(s, CharClass::Space), CharClass::Space);
}

/// A text without white space at its ends is trimmed.
pub proof fn lemma_nothing_to_trim(s: Seq<char>)
    requires
        s.len() > 0 ==> !is_white_space(s[0]) && !is_white_space(s.last()),
    ensures
        trimmed(s) == s,
{
}

/// The order of texts is strict.
pub proof fn lemma_text_less_irreflexive(a: Seq<char>)
    ensures
        !text_less(a, a),
    decreases a.len(),
{
    if a.len() > 0 {
        lemma_text_less_irreflexive(a.skip(1));
    }
}

/// The order of texts is transitive.
pub proof fn lemma_text_less_transitive(a: Seq<char>, b: Seq<char>, c: Seq<char>)
    requires
        text_less(a, b),
        text_less(b, c),
    ensures
        text_less(a, c),
    decreases a.len(),
{
    if a.len() > 0 && b.len() > 0 && c.len() > 0 && a[0] == b[0] && b[0] == c[0] {
        lemma_text_less_transitive(a.skip(1), b.skip(1), c.skip(1));
    }
}

/// Of two different texts one comes before the other.
pub proof fn lemma_text_less_total(a: Seq<char>, b: Seq<char>)
    ensures
        text_less(a, b) || text_less(b, a) || a == b,
    decreases a.len(),
{
    if a.len() > 0 && b.len() > 0 && a[0] == b[0] {
        lemma_text_less_total(a.skip(1), b.skip(1));
        if a.skip(1) == b.skip(1) {
            assert(a =~= seq![a[0]] + a.skip(1));
            assert(b =~= seq![b[0]] + b.skip(1));
        }
    } else if a.len() == 0 && b.len() == 0 {
        assert(a =~= b);
    }
}

// ---------------------------------------------------------------------------
// Operations
// ---------------------------------------------------------------------------
/// The characters of a text.
pub fn chars_of(s: &str) -> (r: Vec<char>)
    ensures
        r@ == s@,
{
    let mut out: Vec<char> = Vec::new();
    for c in iter: s.chars()
        invariant
            iter.seq() == s@,
            out@ == s@.take(iter.index()),
    {
        out.push(c);
    }
    out
}

/// The text of the characters from `from` up to `to`.
pub fn substring(chars: &Vec<char>, from: usize, to: usize) -> (r: String)
    requires
        from <= to <= chars@.len(),
    ensures
        r@ == chars@.subrange(from as int, to as int),
{
    let mut out = String::new();
    let mut i: usize = from;
    while i < to
        invariant
            from <= i <= to <= chars@.len(),
            out@ == chars@.subrange(from as int, i as int),
        decreases to - i,
    {
        out.push(chars[i]);
        i = i + 1;
    }
    out
}

/// Whether two texts are equal.
pub fn same(a: &str, b: &str) -> (r: bool)
    ensures
        r == (a@ == b@),
{
    a.to_owned() == b.to_owned()
}

/// A text with its ASCII capitals lowered.
pub fn lower(s: &str) -> (r: String)
    ensures
        r@ == lowered(s@),
{
    let mut out = String::new();
    for c in iter: s.chars()
        invariant
            iter.seq() == s@,
            out@ == lowered(s@.take(iter.index())),
    {
        out.push(lower_char(c));
        assert(lowered(s@.take(iter.index() + 1)) =~= lowered(s@.take(iter.index())).push(
            ascii_lower(c),
        ));
    }
    assert(s@.take(s@.len() as int) =~= s@);
    out
}

/// Whether `part` stands in `chars` at index `at`.
fn part_at(chars: &Vec<char>, part: &Vec<char>, at: usize) -> (r: bool)
    requires
        at + part@.len() <= chars@.len(),
    ensures
        r == stands_at(chars@, part@, at as int),
{
    let total: usize = chars.len();
    let mut i: usize = 0;
    while i < part.len()
        invariant
            0 <= i <= part@.len(),
            at + part@.len() <= chars@.len(),
            total == chars@.len(),
            forall|j: int| 0 <= j < i ==> chars@[at + j] == #[trigger] part@[j],
        decreases part@.len() - i,
    {
        if chars[at + i] != part[i] {
            assert(chars@.subrange(at as int, at + part@.len())[i as int] != part@[i as int]);
            return false;
        }
        i = i + 1;
    }
    assert(chars@.subrange(at as int, at + part@.len()) =~= part@);
    true
}

/// Whether `part` stands somewhere in `s`.
pub fn contains(s: &str, part: &str) -> (r: bool)
    ensures
        r == contains_text(s@, part@),
{
    let chars = chars_of(s);
    let wanted = chars_of(part);
    let mut at: usize = 0;
    while at <= chars.len() && wanted.len() <= chars.len() - at
        invariant
            chars@ == s@,
            wanted@ == part@,
            0 <= at <= chars@.len() + 1,
            forall|i: int| 0 <= i < at ==> !stands_at(s@, part@, i),
        decreases chars@.len() + 1 - at,
    {
        if part_at(&chars, &wanted, at) {
            return true;
        }
        if at == chars.len() {
            assert(!contains_text(s@, part@));
            return false;
        }
        at = at + 1;
    }
    false
}

/// Whether `s` begins with `prefix`.
pub fn starts_with(s: &str, prefix: &str) -> (r: bool)
    ensures
        r == begins_with(s@, prefix@),
{
    let chars = chars_of(s);
    let wanted = chars_of(prefix);
    if wanted.len() > chars.len() {
        return false;
    }
    assert(s@.take(prefix@.len() as int) =~= s@.subrange(0, prefix@.len() as int));
    part_at(&chars, &wanted, 0)
}

/// `s` without `prefix` at its front, where it begins with it.
pub fn after_prefix(s: &str, prefix: &str) -> (r: Option<String>)
    ensures
        text_view(r) == if begins_with(s@, prefix@) {
            Some(s@.skip(prefix@.len() as int))
        } else {
            None
        },
{
    let chars = chars_of(s);
    let wanted = chars_of(prefix);
    if wanted.len() > chars.len() {
        return None;
    }
    assert(s@.take(prefix@.len() as int) =~= s@.subrange(0, prefix@.len() as int));
    if part_at(&chars, &wanted, 0) {
        Some(substring(&chars, wanted.len(), chars.len()))
    } else {
        None
    }
}

/// `s` without `suffix` at its back, where it ends with it.
pub fn before_suffix(s: &str, suffix: &str) -> (r: Option<String>)
    ensures
        text_view(r) == if ends_with(s@, suffix@) {
            Some(s@.take(s@.len() - suffix@.len()))
        } else {
            None
        },
{
    let chars = chars_of(s);
    let wanted = chars_of(suffix);
    if wanted.len() > chars.len() {
        return None;
    }
    let cut: usize = chars.len() - wanted.len();
    assert(s@.skip(cut as int) =~= s@.subrange(cut as int, cut + suffix@.len()));
    if part_at(&chars, &wanted, cut) {
        assert(s@.take(cut as int) =~= s@.subrange(0, cut as int));
        Some(substring(&chars, 0, cut))
    } else {
        None
    }
}

/// `s` without the characters of `class` at its front.
pub fn trim_start_of(s: &str, class: CharClass) -> (r: String)
    ensures
        r@ == trim_front(s@, class),
{
    let chars = chars_of(s);
    let mut i: usize = 0;
    assert(s@.skip(0) =~= s@);
    while i < chars.len() && class.has(chars[i])
        invariant
            chars@ == s@,
            0 <= i <= chars@.len(),
            trim_front(s@, class) == trim_front(s@.skip(i as int), class),
        decreases chars@.len() - i,
    {
        assert(s@.skip(i as int).skip(1) =~= s@.skip(i + 1));
        i = i + 1;
    }
    substring(&chars, i, chars.len())
}

/// `s` without the characters of `class` at its back.
pub fn trim_end_of(s: &str, class: CharClass) -> (r: String)
    ensures
        r@ == trim_back(s@, class),
{
    let chars = chars_of(s);
    let mut n: usize = chars.len();
    assert(s@.take(n as int) =~= s@);
    while n > 0 && class.has(chars[n - 1])
        invariant
            chars@ == s@,
            0 <= n <= chars@.len(),
            trim_back(s@, class) == trim_back(s@.take(n as int), class),
        decreases n,
    {
        assert(s@.take(n as int).drop_last() =~= s@.take(n - 1));
        n = n - 1;
    }
    assert(s@.take(n as int) =~= s@.subrange(0, n as int));
    substring(&chars, 0, n)
}

/// `s` without the characters of `class` at either end.
pub fn trim_of(s: &str, class: CharClass) -> (r: String)
    ensures
        r@ == trim_both(s@, class),
{
    let front = trim_start_of(s, class);
    trim_end_of(front.as_str(), class)
}

/// `s` without white space at either end.
pub fn trim(s: &str) -> (r: String)
    ensures
        r@ == trimmed(s@),
{
    trim_of(s, CharClass::Space)
}

/// Whether `s` holds nothing but white space.
pub fn is_blank(s: &str) -> (r: bool)
    ensures
        r == (trimmed(s@).len() == 0),
{
    let rest = trim(s);
    rest.as_str().is_empty()
}

/// The index of the first `c` from `from` on, or the number of characters.
pub fn find_char(chars: &Vec<char>, c: char, from: usize) -> (r: usize)
    requires
        from <= chars@.len(),
    ensures
        r == position(chars@, c, from as int),
        from <= r <= chars@.len(),
        r < chars@.len() ==> chars@[r as int] == c,
{
    let mut i: usize = from;
    while i < chars.len() && chars[i] != c
        invariant
            from <= i <= chars@.len(),
            position(chars@, c, from as int) == position(chars@, c, i as int),
        decreases chars@.len() - i,
    {
        i = i + 1;
    }
    i
}

/// The lines of a text.
pub fn lines(s: &str) -> (r: Vec<String>)
    ensures
        texts(r@) == lines_of(s@),
{
    let chars = chars_of(s);
    let mut out: Vec<String> = Vec::new();
    let mut start: usize = 0;
    assert(s@.skip(0) =~= s@);
    assert(texts(out@) =~= Seq::empty());
    while start < chars.len()
        invariant
            chars@ == s@,
            0 <= start <= chars@.len(),
            lines_of(s@) == texts(out@) + lines_of(s@.skip(start as int)),
        decreases chars@.len() - start,
    {
        let ghost rest = s@.skip(start as int);
        let end: usize = find_char(&chars, '\n', start);
        proof {
            lemma_position_skip(s@, '\n', start as int);
        }
        let last: usize = if end < chars.len() && end > start && chars[end - 1] == '\r' {
            end - 1
        } else {
            end
        };
        let line = substring(&chars, start, last);
        let ghost before = out@;
        out.push(line);
        assert(texts(out@) =~= texts(before).push(line@));
        if end == chars.len() {
            assert(line@ =~= rest);
            assert(lines_of(rest) =~= seq![rest]);
            assert(s@.skip(end as int).len() == 0);
            assert(lines_of(s@.skip(end as int)) =~= Seq::empty());
            start = end;
        } else {
            assert(rest.take(end - start) =~= s@.subrange(start as int, end as int));
            assert(line@ =~= without_cr(rest.take(end - start)));
            assert(rest.skip(end - start + 1) =~= s@.skip(end + 1));
            start = end + 1;
        }
        assert(lines_of(s@) =~= texts(out@) + lines_of(s@.skip(start as int)));
    }
    assert(s@.skip(start as int).len() == 0);
    assert(texts(out@) + lines_of(s@.skip(start as int)) =~= texts(out@));
    out
}

/// Searching on from `from` is searching the rest.
proof fn lemma_position_skip(s: Seq<char>, c: char, from: int)
    requires
        0 <= from <= s.len(),
    ensures
        position(s, c, from) == from + position(s.skip(from), c, 0),
{
    lemma_position_skip_at(s, c, from, from);
}

proof fn lemma_position_skip_at(s: Seq<char>, c: char, from: int, at: int)
    requires
        0 <= from <= at <= s.len(),
    ensures
        position(s, c, at) == from + position(s.skip(from), c, at - from),
    decreases s.len() - at,
{
    if at < s.len() && s[at] != c {
        lemma_position_skip_at(s, c, from, at + 1);
    }
}

/// The words of a text.
pub fn words(s: &str) -> (r: Vec<String>)
    ensures
        texts(r@) == words_of(s@),
{
    let chars = chars_of(s);
    let mut out: Vec<String> = Vec::new();
    let mut start: usize = 0;
    assert(s@.skip(0) =~= s@);
    assert(texts(out@) =~= Seq::empty());
    while start < chars.len()
        invariant
            chars@ == s@,
            0 <= start <= chars@.len(),
            words_of(s@) == texts(out@) + words_of(s@.skip(start as int)),
        decreases chars@.len() - start,
    {
        let ghost rest = s@.skip(start as int);
        if white_space(chars[start]) {
            assert(rest.skip(1) =~= s@.skip(start + 1));
            start = start + 1;
        } else {
            let mut end: usize = start;
            while end < chars.len() && !white_space(chars[end])
                invariant
                    chars@ == s@,
                    start <= end <= chars@.len(),
                    word_length(s@.skip(start as int)) == end - start + word_length(
                        s@.skip(end as int),
                    ),
                decreases chars@.len() - end,
            {
                assert(s@.skip(end as int).skip(1) =~= s@.skip(end + 1));
                end = end + 1;
            }
            let word = substring(&chars, start, end);
            let ghost before = out@;
            out.push(word);
            assert(texts(out@) =~= texts(before).push(word@));
            proof {
                lemma_word_length_bounds(rest);
            }
            assert(word@ =~= rest.take(end - start));
            assert(rest.skip(end - start) =~= s@.skip(end as int));
            start = end;
        }
        assert(words_of(s@) =~= texts(out@) + words_of(s@.skip(start as int)));
    }
    assert(s@.skip(start as int).len() == 0);
    assert(texts(out@) + words_of(s@.skip(start as int)) =~= texts(out@));
    out
}

/// A copy of an optional text.
pub fn owned(value: Option<&str>) -> (r: Option<String>)
    ensures
        text_view(r) == str_view(value),
{
    match value {
        Some(value) => Some(value.to_owned()),
        None => None,
    }
}

/// A text, and another behind it.
pub fn glued(a: &str, b: &str) -> (r: String)
    ensures
        r@ == a@ + b@,
{
    let mut out = a.to_owned();
    out.append(b);
    out
}

/// The parts in a row, with `sep` between each two.
pub fn join(parts: &Vec<String>, sep: &str) -> (r: String)
    ensures
        r@ == joined(texts(parts@), sep@),
{
    let mut out = String::new();
    let mut i: usize = 0;
    assert(texts(parts@).take(0) =~= Seq::empty());
    while i < parts.len()
        invariant
            0 <= i <= parts@.len(),
            out@ == joined(texts(parts@).take(i as int), sep@),
        decreases parts@.len() - i,
    {
        if i > 0 {
            out.append(sep);
        }
        out.append(parts[i].as_str());
        assert(texts(parts@).take(i + 1).drop_last() =~= texts(parts@).take(i as int));
        assert(texts(parts@).take(i + 1).last() == parts@[i as int]@);
        if i == 0 {
            assert(out@ =~= parts@[0]@);
        }
        i = i + 1;
    }
    assert(texts(parts@).take(i as int) =~= texts(parts@));
    out
}

/// The parts without those that stand further to the front too.
pub fn dedupe(parts: Vec<String>) -> (r: Vec<String>)
    ensures
        texts(r@) == deduplicated(texts(parts@)),
{
    let ghost views = texts(parts@);
    let mut out: Vec<String> = Vec::new();
    let mut i: usize = 0;
    assert(views.take(0) =~= Seq::empty());
    assert(texts(out@) =~= Seq::empty());
    while i < parts.len()
        invariant
            0 <= i <= parts@.len(),
            views == texts(parts@),
            texts(out@) == deduplicated(views.take(i as int)),
        decreases parts@.len() - i,
    {
        assert(views.take(i + 1).drop_last() =~= views.take(i as int));
        assert(views.take(i + 1).last() == parts@[i as int]@);
        if !has_text(&out, parts[i].as_str()) {
            let ghost before = texts(out@);
            out.push(parts[i].clone());
            assert(texts(out@) =~= before.push(parts@[i as int]@));
        }
        i = i + 1;
    }
    assert(views.take(i as int) =~= views);
    out
}

/// Whether a text is among some.
pub fn has_text(parts: &Vec<String>, part: &str) -> (r: bool)
    ensures
        r == texts(parts@).contains(part@),
{
    let mut i: usize = 0;
    while i < parts.len()
        invariant
            0 <= i <= parts@.len(),
            forall|j: int| 0 <= j < i ==> #[trigger] texts(parts@)[j] != part@,
        decreases parts@.len() - i,
    {
        if same(parts[i].as_str(), part) {
            assert(texts(parts@)[i as int] == part@);
            return true;
        }
        i = i + 1;
    }
    false
}

/// The number of bytes of a text in UTF-8.
pub fn byte_len(s: &str) -> (r: usize)
    ensures
        r == byte_length(s@),
{
    s.as_bytes().len()
}

/// Whether the first `n` bytes of `s` are whole characters.
pub fn clean_cut(s: &str, n: usize) -> (r: bool)
    ensures
        r == cuts_cleanly(s@, n as int),
{
    byte_len(s) <= n || s.is_char_boundary(n)
}

/// Whether `a` comes before `b`.
pub fn less(a: &str, b: &str) -> (r: bool)
    ensures
        r == text_less(a@, b@),
{
    let left = chars_of(a);
    let right = chars_of(b);
    let mut i: usize = 0;
    assert(a@.skip(0) =~= a@);
    assert(b@.skip(0) =~= b@);
    while i < left.len() && i < right.len() && left[i] == right[i]
        invariant
            left@ == a@,
            right@ == b@,
            0 <= i <= left@.len(),
            i <= right@.len(),
            text_less(a@, b@) == text_less(a@.skip(i as int), b@.skip(i as int)),
        decreases left@.len() - i,
    {
        assert(a@.skip(i as int).skip(1) =~= a@.skip(i + 1));
        assert(b@.skip(i as int).skip(1) =~= b@.skip(i + 1));
        i = i + 1;
    }
    if i == right.len() {
        false
    } else if i == left.len() {
        true
    } else {
        left[i] < right[i]
    }
}

/// A number in decimal.
pub fn decimal_of(n: u64) -> (r: String)
    ensures
        r@ == decimal(n as nat),
    decreases n,
{
    let d: char = ((n % 10) as u8 + 48) as char;
    let mut out = if n < 10 {
        String::new()
    } else {
        decimal_of(n / 10)
    };
    out.push(d);
    if n < 10 {
        assert(out@ =~= decimal(n as nat));
    }
    out
}

/// An integer in decimal.
pub fn signed_decimal_of(n: i64) -> (r: String)
    ensures
        r@ == signed_decimal(n as int),
{
    if n >= 0 {
        decimal_of(n as u64)
    } else {
        let magnitude: u64 = (-(n + 1)) as u64 + 1;
        let digits = decimal_of(magnitude);
        let mut out = String::new();
        out.push('-');
        out.append(digits.as_str());
        assert(out@ =~= seq!['-'] + decimal(magnitude as nat));
        out
    }
}

// ---------------------------------------------------------------------------
// Laws
// ---------------------------------------------------------------------------
/// The blank, the tab and the characters that end a line are white space; what can be seen of
/// ASCII is not. Beyond ASCII it is the breaks and the blanks of Unicode, of whatever width.
pub proof fn law_white_space(c: char)
    ensures
        c == ' ' || c == '\t' || c == '\n' || c == '\r' ==> is_white_space(c),
        '!' <= c <= '~' ==> !is_white_space(c),
        is_white_space(c) <==> {
            let code = c as u32;
            ||| 9 <= code <= 13
            ||| code == 32 || code == 133 || code == 160 || code == 5760
            ||| 8192 <= code <= 8202
            ||| code == 8232 || code == 8233 || code == 8239 || code == 8287 || code == 12288
        },
{
}

/// What trimming leaves of a text is one stretch of it. Before it and behind it stand
/// characters of the class alone, and none of them at its own ends.
pub proof fn law_trimming_leaves_the_middle(s: Seq<char>, class: CharClass)
    ensures
        exists|from: int, to: int|
            #![trigger s.subrange(from, to)]
            {
                &&& 0 <= from <= to <= s.len()
                &&& trim_both(s, class) == s.subrange(from, to)
                &&& forall|i: int| 0 <= i < from || to <= i < s.len() ==> class.holds(#[trigger] s[i])
                &&& from < to ==> !class.holds(s[from]) && !class.holds(s[to - 1])
            },
{
    lemma_trim_front_from(s, class);
    let from = s.len() - trim_front(s, class).len();
    let rest = s.skip(from);
    lemma_trim_back_to(rest, class);
    let length = trim_back(rest, class).len() as int;
    let to = from + length;
    assert(rest.take(length) =~= s.subrange(from, to));
    assert forall|i: int| 0 <= i < from || to <= i < s.len() implies class.holds(#[trigger] s[i]) by {
        if to <= i {
            assert(rest[i - from] == s[i]);
        }
    }
    if from < to {
        assert(rest[0] == s[from]);
        assert(rest[length - 1] == s[to - 1]);
    }
}

/// What is left of a text without the characters of a class at its front is its back, from
/// the first other character on.
pub proof fn lemma_trim_front_from(s: Seq<char>, class: CharClass)
    ensures
        trim_front(s, class).len() <= s.len(),
        trim_front(s, class) == s.skip(s.len() - trim_front(s, class).len()),
        forall|i: int|
            0 <= i < s.len() - trim_front(s, class).len() ==> class.holds(#[trigger] s[i]),
        trim_front(s, class).len() > 0 ==> !class.holds(
            s[s.len() - trim_front(s, class).len()],
        ),
    decreases s.len(),
{
    if s.len() > 0 && class.holds(s[0]) {
        let rest = s.skip(1);
        lemma_trim_front_from(rest, class);
        let n = s.len() - trim_front(s, class).len();
        assert(rest.skip(n - 1) =~= s.skip(n));
        assert forall|i: int| 0 <= i < n implies class.holds(#[trigger] s[i]) by {
            if i > 0 {
                assert(rest[i - 1] == s[i]);
            }
        }
    } else {
        assert(s.skip(0) =~= s);
    }
}

/// What is left of a text without the characters of a class at its back is its front, up to
/// the last other character.
pub proof fn lemma_trim_back_to(s: Seq<char>, class: CharClass)
    ensures
        trim_back(s, class).len() <= s.len(),
        trim_back(s, class) == s.take(trim_back(s, class).len() as int),
        forall|i: int| trim_back(s, class).len() <= i < s.len() ==> class.holds(#[trigger] s[i]),
        trim_back(s, class).len() > 0 ==> !class.holds(s[trim_back(s, class).len() - 1]),
    decreases s.len(),
{
    if s.len() > 0 && class.holds(s.last()) {
        let rest = s.drop_last();
        lemma_trim_back_to(rest, class);
        let n = trim_back(s, class).len() as int;
        assert(rest.take(n) =~= s.take(n));
        assert forall|i: int| n <= i < s.len() implies class.holds(#[trigger] s[i]) by {
            if i < rest.len() {
                assert(rest[i] == s[i]);
            }
        }
    } else {
        assert(s.take(s.len() as int) =~= s);
    }
}

/// Lowering a text keeps its length and every character but the capitals of ASCII, each of
/// which becomes the small letter.
pub proof fn law_lowering_changes_capitals_alone(s: Seq<char>, i: int)
    requires
        0 <= i < s.len(),
    ensures
        lowered(s).len() == s.len(),
        'A' <= s[i] <= 'Z' ==> lowered(s)[i] as u32 == s[i] as u32 + 32,
        !('A' <= s[i] <= 'Z') ==> lowered(s)[i] == s[i],
{
}

/// A text contains another exactly where it is made of something, that text, and something.
pub proof fn law_containing(s: Seq<char>, part: Seq<char>, before: Seq<char>, after: Seq<char>)
    ensures
        contains_text(before + part + after, part),
        contains_text(s, part) ==> exists|at: int|
            #![trigger s.take(at)]
            0 <= at <= s.len() - part.len() && s == s.take(at) + part + s.skip(at + part.len()),
{
    let whole = before + part + after;
    let at = before.len() as int;
    assert(whole.subrange(at, at + part.len()) =~= part);
    assert(stands_at(whole, part, at));
    if contains_text(s, part) {
        let at = choose|at: int| stands_at(s, part, at);
        assert(s =~= s.take(at) + s.subrange(at, at + part.len()) + s.skip(at + part.len()));
    }
}

/// A text begins, or ends, with another exactly where something follows, or precedes, that one.
pub proof fn law_beginnings_and_ends(s: Seq<char>, part: Seq<char>, rest: Seq<char>)
    ensures
        begins_with(part + rest, part),
        ends_with(rest + part, part),
        begins_with(s, part) ==> part.len() <= s.len() && s == part + s.skip(part.len() as int),
        ends_with(s, part) ==> part.len() <= s.len() && s == s.take(s.len() - part.len()) + part,
{
    assert((part + rest).take(part.len() as int) =~= part);
    assert((rest + part).skip(rest.len() as int) =~= part);
    if begins_with(s, part) {
        assert(s =~= s.take(part.len() as int) + s.skip(part.len() as int));
    }
    if ends_with(s, part) {
        assert(s =~= s.take(s.len() - part.len()) + s.skip(s.len() - part.len()));
    }
}

/// Two texts are in the order of the first characters in which they differ, and a text comes
/// before every longer one that it begins.
pub proof fn law_order_of_texts(
    common: Seq<char>,
    a: char,
    b: char,
    rest: Seq<char>,
    other: Seq<char>,
)
    ensures
        text_less(common + seq![a] + rest, common + seq![b] + other) <==> a < b || (a == b
            && text_less(rest, other)),
        text_less(common, common + seq![b] + other),
        !text_less(common + seq![b] + other, common),
    decreases common.len(),
{
    let left = common + seq![a] + rest;
    let right = common + seq![b] + other;
    if common.len() == 0 {
        assert(left.skip(1) =~= rest);
        assert(right.skip(1) =~= other);
    } else {
        let shorter = common.skip(1);
        law_order_of_texts(shorter, a, b, rest, other);
        assert(left.skip(1) =~= shorter + seq![a] + rest);
        assert(right.skip(1) =~= shorter + seq![b] + other);
    }
}

/// The first place of a character is where nothing before it has it.
proof fn lemma_position_is(s: Seq<char>, c: char, from: int, at: int)
    requires
        0 <= from <= at <= s.len(),
        forall|i: int| from <= i < at ==> s[i] != c,
        at < s.len() ==> s[at] == c,
    ensures
        position(s, c, from) == at,
    decreases at - from,
{
    if from < at {
        lemma_position_is(s, c, from + 1, at);
    }
}

/// A character is found where it stands first: behind a text without it, and before anything.
pub proof fn law_first_place(before: Seq<char>, c: char, after: Seq<char>, from: int)
    requires
        0 <= from <= before.len(),
        forall|i: int| from <= i < before.len() ==> before[i] != c,
    ensures
        position(before + seq![c] + after, c, from) == before.len(),
        position(before, c, from) == before.len(),
{
    lemma_position_is(before + seq![c] + after, c, from, before.len() as int);
    lemma_position_is(before, c, from, before.len() as int);
}

/// The lines of a text are what stands between its line feeds: the first of them, without a
/// carriage return at its end, and then those of the rest. What no line feed ends is a line
/// too, and an empty text has none.
pub proof fn law_lines(line: Seq<char>, rest: Seq<char>)
    requires
        forall|i: int| 0 <= i < line.len() ==> line[i] != '\n',
    ensures
        lines_of(Seq::<char>::empty()).len() == 0,
        line.len() > 0 ==> lines_of(line) == seq![line],
        line.len() == 0 || line.last() != '\r' ==> lines_of(line + seq!['\n'] + rest) == seq![line]
            + lines_of(rest),
        lines_of(line + seq!['\r'] + seq!['\n'] + rest) == seq![line] + lines_of(rest),
{
    law_first_place(line, '\n', rest, 0);
    let plain = line + seq!['\n'] + rest;
    assert(plain.take(line.len() as int) =~= line);
    assert(plain.skip(line.len() as int + 1) =~= rest);
    let returned = line + seq!['\r'];
    law_first_place(returned, '\n', rest, 0);
    let other = returned + seq!['\n'] + rest;
    assert(other.take(line.len() as int + 1) =~= returned);
    assert(other.skip(line.len() as int + 2) =~= rest);
    assert(returned.drop_last() =~= line);
}

/// The words of a text are what stands between its white space, in order.
pub proof fn law_words(word: Seq<char>, space: char, rest: Seq<char>)
    requires
        word.len() > 0,
        forall|i: int| 0 <= i < word.len() ==> !is_white_space(#[trigger] word[i]),
        is_white_space(space),
    ensures
        words_of(Seq::<char>::empty()).len() == 0,
        words_of(seq![space] + rest) == words_of(rest),
        words_of(word) == seq![word],
        words_of(word + seq![space] + rest) == seq![word] + words_of(rest),
{
    assert((seq![space] + rest).skip(1) =~= rest);
    assert(word + Seq::<char>::empty() =~= word);
    lemma_word_length_is(word, Seq::empty());
    assert(word.take(word.len() as int) =~= word);
    assert(word.skip(word.len() as int) =~= Seq::<char>::empty());
    assert(!is_white_space(word[0]));
    assert(words_of(Seq::<char>::empty()) =~= Seq::empty());
    assert(words_of(word) =~= seq![word]);
    let tail = seq![space] + rest;
    let whole = word + tail;
    assert(word + seq![space] + rest =~= whole);
    lemma_word_length_is(word, tail);
    assert(whole.take(word.len() as int) =~= word);
    assert(whole.skip(word.len() as int) =~= tail);
    assert(whole[0] == word[0]);
    assert(words_of(whole) == seq![word] + words_of(tail));
    assert(tail[0] == space);
    assert(words_of(tail) == words_of(rest));
}

/// A word is as long as what stands before the first white space.
proof fn lemma_word_length_is(word: Seq<char>, tail: Seq<char>)
    requires
        forall|i: int| 0 <= i < word.len() ==> !is_white_space(#[trigger] word[i]),
        tail.len() > 0 ==> is_white_space(tail[0]),
    ensures
        word_length(word + tail) == word.len(),
    decreases word.len(),
{
    let whole = word + tail;
    if word.len() > 0 {
        assert(whole[0] == word[0]);
        assert(whole.skip(1) =~= word.skip(1) + tail);
        assert forall|i: int| 0 <= i < word.skip(1).len() implies !is_white_space(
            #[trigger] word.skip(1)[i],
        ) by {
            assert(word.skip(1)[i] == word[i + 1]);
        }
        lemma_word_length_is(word.skip(1), tail);
    } else {
        assert(whole =~= tail);
    }
}

/// Joining parts is joining their first ones and their last ones, with the separator between;
/// a part alone stays as it is.
pub proof fn law_joining(first: Seq<Seq<char>>, last: Seq<Seq<char>>, part: Seq<char>, sep: Seq<char>)
    requires
        first.len() > 0,
        last.len() > 0,
    ensures
        joined(Seq::<Seq<char>>::empty(), sep).len() == 0,
        joined(seq![part], sep) == part,
        joined(first + last, sep) == joined(first, sep) + sep + joined(last, sep),
    decreases last.len(),
{
    let all = first + last;
    assert(all.last() == last.last());
    if last.len() == 1 {
        assert(all.drop_last() =~= first);
    } else {
        assert(all.drop_last() =~= first + last.drop_last());
        law_joining(first, last.drop_last(), part, sep);
        assert(joined(all, sep) =~= joined(first, sep) + sep + joined(last, sep));
    }
}

/// The number that decimal digits stand for.
pub open spec fn number_of(digits: Seq<char>) -> int
    decreases digits.len(),
{
    if digits.len() == 0 {
        0
    } else {
        10 * number_of(digits.drop_last()) + (digits.last() as int - '0' as int)
    }
}

/// A number in decimal is made of digits, has no zero in front unless it is zero, and stands
/// for that number; a negative one has a minus sign before it.
pub proof fn law_decimal_reads_back(n: nat)
    ensures
        decimal(n).len() > 0,
        forall|i: int| 0 <= i < decimal(n).len() ==> '0' <= #[trigger] decimal(n)[i] <= '9',
        n > 0 ==> decimal(n)[0] != '0',
        number_of(decimal(n)) == n,
        signed_decimal(n as int) == decimal(n),
        n > 0 ==> signed_decimal(-n) == seq!['-'] + decimal(n),
    decreases n,
{
    reveal_with_fuel(number_of, 2);
    if n < 10 {
        assert(decimal(n).drop_last() =~= Seq::<char>::empty());
    } else {
        law_decimal_reads_back(n / 10);
        assert(decimal(n).drop_last() =~= decimal(n / 10));
        assert forall|i: int| 0 <= i < decimal(n).len() implies '0' <= #[trigger] decimal(n)[i]
            <= '9' by {
            if i < decimal(n / 10).len() {
                assert(decimal(n)[i] == decimal(n / 10)[i]);
            }
        }
        assert(decimal(n)[0] == decimal(n / 10)[0]);
    }
}

/// Different integers have different decimals.
pub proof fn law_decimals_differ(a: int, b: int)
    requires
        signed_decimal(a) == signed_decimal(b),
    ensures
        a == b,
{
    let x = if a < 0 {
        (-a) as nat
    } else {
        a as nat
    };
    let y = if b < 0 {
        (-b) as nat
    } else {
        b as nat
    };
    law_decimal_reads_back(x);
    law_decimal_reads_back(y);
    assert(decimal(x)[0] != '-' && decimal(y)[0] != '-');
    if a < 0 {
        assert(signed_decimal(a)[0] == '-');
        assert(signed_decimal(a).skip(1) =~= decimal(x));
    }
    if b < 0 {
        assert(signed_decimal(b)[0] == '-');
        assert(signed_decimal(b).skip(1) =~= decimal(y));
    }
}

/// A phrase is found in a lowered text in whatever letters it was written there.
pub proof fn law_phrase_in_any_letters(before: Seq<char>, shown: Seq<char>, after: Seq<char>)
    ensures
        contains_text(lowered(before + shown + after), lowered(shown)),
{
    let whole = lowered(before + shown + after);
    let at = before.len() as int;
    assert(whole.subrange(at, at + shown.len()) =~= lowered(shown));
    assert(stands_at(whole, lowered(shown), at));
}

/// Trimming takes the characters of a class away at both ends, and stops at the first other
/// one from either side.
pub proof fn law_trimming_takes_the_edges(
    front: Seq<char>,
    middle: Seq<char>,
    back: Seq<char>,
    class: CharClass,
)
    requires
        forall|i: int| 0 <= i < front.len() ==> class.holds(#[trigger] front[i]),
        forall|i: int| 0 <= i < back.len() ==> class.holds(#[trigger] back[i]),
        middle.len() > 0,
        !class.holds(middle[0]),
        !class.holds(middle.last()),
    ensures
        trim_front(front + middle + back, class) == middle + back,
        trim_back(front + middle + back, class) == front + middle,
        trim_both(front + middle + back, class) == middle,
{
    lemma_trim_front_of(front, middle + back, class);
    assert(front + middle + back =~= front + (middle + back));
    assert((middle + back)[0] == middle[0]);
    lemma_trim_back_of(front + middle, back, class);
    assert((front + middle).last() == middle.last());
    lemma_trim_back_of(middle, back, class);
}

/// What stands behind characters of a class is left when these are trimmed away.
proof fn lemma_trim_front_of(front: Seq<char>, rest: Seq<char>, class: CharClass)
    requires
        forall|i: int| 0 <= i < front.len() ==> class.holds(#[trigger] front[i]),
        rest.len() > 0 ==> !class.holds(rest[0]),
    ensures
        trim_front(front + rest, class) == rest,
    decreases front.len(),
{
    let whole = front + rest;
    if front.len() > 0 {
        assert(whole[0] == front[0]);
        assert(whole.skip(1) =~= front.skip(1) + rest);
        assert forall|i: int| 0 <= i < front.skip(1).len() implies class.holds(
            #[trigger] front.skip(1)[i],
        ) by {
            assert(front.skip(1)[i] == front[i + 1]);
        }
        lemma_trim_front_of(front.skip(1), rest, class);
    } else {
        assert(whole =~= rest);
    }
}

/// What stands before characters of a class is left when these are trimmed away.
proof fn lemma_trim_back_of(rest: Seq<char>, back: Seq<char>, class: CharClass)
    requires
        forall|i: int| 0 <= i < back.len() ==> class.holds(#[trigger] back[i]),
        rest.len() > 0 ==> !class.holds(rest.last()),
    ensures
        trim_back(rest + back, class) == rest,
    decreases back.len(),
{
    let whole = rest + back;
    if back.len() > 0 {
        assert(whole.last() == back[back.len() - 1]);
        assert(whole.drop_last() =~= rest + back.drop_last());
        lemma_trim_back_of(rest, back.drop_last(), class);
    } else {
        assert(whole =~= rest);
    }
}

/// Of parts that are equal the first stays, and the others keep their order: a further part is
/// put at the end, unless it is there.
pub proof fn law_duplicates_go(parts: Seq<Seq<char>>, part: Seq<char>)
    ensures
        parts.contains(part) ==> deduplicated(parts.push(part)) == deduplicated(parts),
        !parts.contains(part) ==> deduplicated(parts.push(part)) == deduplicated(parts).push(part),
        deduplicated(Seq::<Seq<char>>::empty()).len() == 0,
{
    lemma_deduplicated(parts);
    assert(parts.push(part).drop_last() =~= parts);
    assert(deduplicated(parts).contains(part) <==> parts.contains(part));
}

/// The bytes of two texts in a row are the bytes of the one and then those of the other.
proof fn lemma_bytes_of_both(a: Seq<char>, b: Seq<char>)
    ensures
        encode_utf8(a + b) == encode_utf8(a) + encode_utf8(b),
    decreases a.len(),
{
    if a.len() == 0 {
        assert(a + b =~= b);
        assert(encode_utf8(a) + encode_utf8(b) =~= encode_utf8(b));
    } else {
        assert((a + b).drop_first() =~= a.drop_first() + b);
        lemma_bytes_of_both(a.drop_first(), b);
        assert(encode_utf8(a + b) =~= encode_utf8(a) + encode_utf8(b));
    }
}

/// The first bytes of a text, as many as its beginning has, are that beginning; and they can be
/// cut off.
pub proof fn law_first_bytes_are_the_beginning(beginning: Seq<char>, rest: Seq<char>)
    ensures
        byte_prefix(beginning + rest, byte_length(beginning) as int) == beginning,
        byte_length(beginning + rest) == byte_length(beginning) + byte_length(rest),
{
    lemma_bytes_of_both(beginning, rest);
    let bytes = encode_utf8(beginning + rest);
    assert(bytes.subrange(0, byte_length(beginning) as int) =~= encode_utf8(beginning));
    vstd::utf8::encode_utf8_decode_utf8(beginning);
}

/// Texts are seen as the characters that they hold, one by one and many in a row.
pub proof fn law_texts_are_seen_as_they_are(text: String, strings: Seq<String>, i: int)
    requires
        0 <= i < strings.len(),
    ensures
        text_view(Some(text)) == Some(text@),
        text_view(None) is None,
        texts(strings).len() == strings.len(),
        texts(strings)[i] == strings[i]@,
{
}

} // verus!
