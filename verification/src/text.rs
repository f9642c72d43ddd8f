//! Text as sequences of characters: searching, splitting, trimming, case
//! folding, and the decimal notation of integers.

pub mod laws;

use vstd::prelude::*;
use vstd::string::*;
use vstd::utf8::encode_utf8;

verus! {

/// `String::push` appends one character.
pub assume_specification[ std::string::String::push ](s: &mut std::string::String, c: char)
    ensures
        final(s)@ == old(s)@.push(c),
;

/// Equality of string slices compares their characters.
pub assume_specification[ <str as PartialEq>::eq ](s: &str, other: &str) -> (r: bool)
    ensures
        r == (s@ == other@),
;

// ---------------------------------------------------------------- specifications

/// Index of the first `c` at or after position `i`.
pub open spec fn find_from(s: Seq<char>, c: char, i: int) -> Option<int>
    decreases s.len() - i,
{
    if i < 0 || i >= s.len() {
        None
    } else if s[i] == c {
        Some(i)
    } else {
        find_from(s, c, i + 1)
    }
}

/// The parts before and after the first `c`.
pub open spec fn split_at_first(s: Seq<char>, c: char) -> Option<(Seq<char>, Seq<char>)> {
    match find_from(s, c, 0) {
        Some(i) => Some((s.take(i), s.skip(i + 1))),
        None => None,
    }
}

/// `needle` occurs in `s` at position `i`.
pub open spec fn occurs_at(s: Seq<char>, needle: Seq<char>, i: int) -> bool {
    &&& 0 <= i
    &&& i + needle.len() <= s.len()
    &&& s.subrange(i, i + needle.len()) == needle
}

/// `needle` occurs somewhere in `s`.
pub open spec fn contains_text(s: Seq<char>, needle: Seq<char>) -> bool {
    exists|i: int| occurs_at(s, needle, i)
}

/// The characters with the Unicode property `White_Space`.
pub open spec fn white_space(c: char) -> bool {
    let n = c as u32;
    ||| 0x9 <= n <= 0xd
    ||| n == 0x20
    ||| n == 0x85
    ||| n == 0xa0
    ||| n == 0x1680
    ||| 0x2000 <= n <= 0x200a
    ||| n == 0x2028
    ||| n == 0x2029
    ||| n == 0x202f
    ||| n == 0x205f
    ||| n == 0x3000
}

/// `s` without its leading white space.
pub open spec fn trimmed_start(s: Seq<char>) -> Seq<char>
    decreases s.len(),
{
    if s.len() > 0 && white_space(s[0]) {
        trimmed_start(s.skip(1))
    } else {
        s
    }
}

/// `s` without its trailing white space.
pub open spec fn trimmed_end(s: Seq<char>) -> Seq<char>
    decreases s.len(),
{
    if s.len() > 0 && white_space(s.last()) {
        trimmed_end(s.drop_last())
    } else {
        s
    }
}

/// `s` without white space at either end.
pub open spec fn trimmed(s: Seq<char>) -> Seq<char> {
    trimmed_end(trimmed_start(s))
}

/// No white space stands at either end of `s`.
pub open spec fn unpadded(s: Seq<char>) -> bool {
    s.len() > 0 ==> !white_space(s[0]) && !white_space(s.last())
}

/// `s` without the trailing characters equal to `c`.
pub open spec fn without_trailing(s: Seq<char>, c: char) -> Seq<char>
    decreases s.len(),
{
    if s.len() > 0 && s.last() == c {
        without_trailing(s.drop_last(), c)
    } else {
        s
    }
}

pub open spec fn lower_char(c: char) -> char {
    if 'A' <= c <= 'Z' {
        ((c as u8) + 32) as u8 as char
    } else {
        c
    }
}

pub open spec fn upper_char(c: char) -> char {
    if 'a' <= c <= 'z' {
        ((c as u8) - 32) as u8 as char
    } else {
        c
    }
}

/// ASCII letters folded to lower case.
pub open spec fn lower(s: Seq<char>) -> Seq<char> {
    Seq::new(s.len(), |i: int| lower_char(s[i]))
}

/// ASCII letters folded to upper case.
pub open spec fn upper(s: Seq<char>) -> Seq<char> {
    Seq::new(s.len(), |i: int| upper_char(s[i]))
}

/// The parts from position `i` on, with `sep` between neighbours.
pub open spec fn joined_from(parts: Seq<Seq<char>>, sep: Seq<char>, i: int) -> Seq<char>
    decreases parts.len() - i,
{
    if i < 0 || i >= parts.len() {
        Seq::empty()
    } else if i + 1 == parts.len() {
        parts[i]
    } else {
        parts[i] + sep + joined_from(parts, sep, i + 1)
    }
}

/// The parts with `sep` between neighbours.
pub open spec fn joined(parts: Seq<Seq<char>>, sep: Seq<char>) -> Seq<char> {
    joined_from(parts, sep, 0)
}

/// The character of a decimal digit.
pub open spec fn digit_char(d: nat) -> char {
    (48 + d) as u8 as char
}

/// Decimal notation without leading zeros.
pub open spec fn decimal(n: nat) -> Seq<char>
    decreases n,
{
    if n < 10 {
        seq![digit_char(n)]
    } else {
        decimal(n / 10).push(digit_char(n % 10))
    }
}

/// Decimal notation with a minus sign for negative numbers.
pub open spec fn signed_decimal(n: int) -> Seq<char> {
    if n < 0 {
        seq!['-'] + decimal((-n) as nat)
    } else {
        decimal(n as nat)
    }
}

pub open spec fn is_digit(c: char) -> bool {
    '0' <= c <= '9'
}

/// The number that a sequence of decimal digits denotes.
pub open spec fn digits_value(s: Seq<char>) -> nat
    decreases s.len(),
{
    if s.len() == 0 {
        0
    } else {
        digits_value(s.drop_last()) * 10 + ((s.last() as u8) - 48) as nat
    }
}

pub open spec fn all_digits(s: Seq<char>) -> bool {
    forall|i: int| 0 <= i < s.len() ==> is_digit(#[trigger] s[i])
}

/// An optional sign and at least one digit denote an integer.
pub open spec fn integer_of(s: Seq<char>) -> Option<int> {
    let body = if s.len() > 0 && (s[0] == '-' || s[0] == '+') {
        s.skip(1)
    } else {
        s
    };
    if body.len() == 0 || !all_digits(body) {
        None
    } else if s[0] == '-' {
        Some(-(digits_value(body) as int))
    } else {
        Some(digits_value(body) as int)
    }
}

/// `s` followed by spaces up to `width` characters.
pub open spec fn padded(s: Seq<char>, width: nat) -> Seq<char> {
    if s.len() < width {
        s + Seq::new((width - s.len()) as nat, |i: int| ' ')
    } else {
        s
    }
}

/// `s` preceded by spaces up to `width` characters.
pub open spec fn padded_left(s: Seq<char>, width: nat) -> Seq<char> {
    if s.len() < width {
        Seq::new((width - s.len()) as nat, |i: int| ' ') + s
    } else {
        s
    }
}

/// Position of the first character that is no white space, at or after `i`.
pub open spec fn word_start(s: Seq<char>, i: int) -> int
    decreases s.len() - i,
{
    if 0 <= i < s.len() && white_space(s[i]) {
        word_start(s, i + 1)
    } else {
        i
    }
}

/// Position of the first white space at or after `i`.
pub open spec fn word_end(s: Seq<char>, i: int) -> int
    decreases s.len() - i,
{
    if 0 <= i < s.len() && !white_space(s[i]) {
        word_end(s, i + 1)
    } else {
        i
    }
}

/// What has no white space at its ends is kept.
pub proof fn lemma_unpadded(s: Seq<char>)
    requires
        unpadded(s),
    ensures
        trimmed(s) == s,
{
}

/// White space around a text makes no difference.
pub proof fn lemma_padded(s: Seq<char>, before: char, behind: char)
    requires
        white_space(before),
        white_space(behind),
    ensures
        trimmed(seq![before] + s + seq![behind]) == trimmed(s),
{
    let all = seq![before] + s + seq![behind];
    assert(all.skip(1) =~= s.push(behind));
    lemma_padded_behind(s, behind);
}

proof fn lemma_padded_behind(s: Seq<char>, c: char)
    requires
        white_space(c),
    ensures
        trimmed(s.push(c)) == trimmed(s),
    decreases s.len(),
{
    let all = s.push(c);
    if s.len() == 0 {
        assert(all.skip(1) =~= s);
    } else if white_space(s[0]) {
        assert(all.skip(1) =~= s.skip(1).push(c));
        lemma_padded_behind(s.skip(1), c);
    } else {
        assert(all.drop_last() =~= s);
    }
}

/// A text is split at a character that the first part does not hold.
pub proof fn lemma_split_joined(first: Seq<char>, c: char, second: Seq<char>)
    requires
        forall|k: int| 0 <= k < first.len() ==> #[trigger] first[k] != c,
    ensures
        split_at_first(first + seq![c] + second, c) == Some((first, second)),
{
    let all = first + seq![c] + second;
    lemma_found_at(all, c, 0, first.len() as int);
    assert(all.take(first.len() as int) =~= first);
    assert(all.skip(first.len() as int + 1) =~= second);
}

proof fn lemma_found_at(s: Seq<char>, c: char, i: int, at: int)
    requires
        0 <= i <= at < s.len(),
        s[at] == c,
        forall|k: int| i <= k < at ==> #[trigger] s[k] != c,
    ensures
        find_from(s, c, i) == Some(at),
    decreases at - i,
{
    if i < at {
        lemma_found_at(s, c, i + 1, at);
    }
}

/// A word lies within its text.
pub proof fn lemma_word_bounds(s: Seq<char>, i: int)
    requires
        0 <= i <= s.len(),
    ensures
        i <= word_start(s, i) <= s.len(),
        word_start(s, i) < s.len() ==> !white_space(s[word_start(s, i)]),
        i <= word_end(s, i) <= s.len(),
    decreases s.len() - i,
{
    if i < s.len() {
        lemma_word_bounds(s, i + 1);
    }
}

/// The words from position `i` on that white space separates.
pub open spec fn words_from(s: Seq<char>, i: int) -> Seq<Seq<char>>
    decreases s.len() - i,
{
    if i < 0 || i > s.len() {
        Seq::empty()
    } else {
        let from = word_start(s, i);
        let to = word_end(s, from);
        proof {
            lemma_word_bounds(s, i);
            lemma_word_bounds(s, from);
            if from < s.len() {
                lemma_word_bounds(s, from + 1);
            }
        }
        if from < s.len() {
            seq![s.subrange(from, to)] + words_from(s, to)
        } else {
            Seq::empty()
        }
    }
}

/// The words that white space separates.
pub open spec fn words_of(s: Seq<char>) -> Seq<Seq<char>> {
    words_from(s, 0)
}

/// A line without the carriage return before its line feed.
pub open spec fn without_return(line: Seq<char>) -> Seq<char> {
    if line.len() > 0 && line.last() == '\r' {
        line.drop_last()
    } else {
        line
    }
}

/// The lines of a text from position `i` on.
pub open spec fn lines_from(s: Seq<char>, i: int) -> Seq<Seq<char>>
    decreases s.len() - i,
{
    if i < 0 || i >= s.len() {
        Seq::empty()
    } else {
        match find_from(s, '\n', i) {
            Some(p) if i <= p < s.len() => seq![without_return(s.subrange(i, p))] + lines_from(
                s,
                p + 1,
            ),
            _ => seq![s.skip(i)],
        }
    }
}

/// The lines of a text.
pub open spec fn lines_of(s: Seq<char>) -> Seq<Seq<char>> {
    lines_from(s, 0)
}

/// `unit` repeated `n` times.
pub open spec fn repeated(unit: Seq<char>, n: nat) -> Seq<char>
    decreases n,
{
    if n == 0 {
        Seq::empty()
    } else {
        repeated(unit, (n - 1) as nat) + unit
    }
}

// ---------------------------------------------------------------- characters

/// Equality of two texts.
pub fn same(a: &str, b: &str) -> (r: bool)
    ensures
        r == (a@ == b@),
{
    *a == *b
}

/// The number of bytes of a text.
pub fn byte_len(s: &str) -> (r: usize)
    ensures
        r == encode_utf8(s@).len(),
{
    s.as_bytes().len()
}

/// The characters of a text.
pub fn chars_of(s: &str) -> (r: Vec<char>)
    ensures
        r@ == s@,
{
    let mut out: Vec<char> = Vec::new();
    for c in it: s.chars()
        invariant
            it.seq() == s@,
            out@ == s@.take(it.index() as int),
    {
        out.push(c);
        assert(out@ =~= s@.take(it.index() + 1));
    }
    assert(s@.take(s@.len() as int) =~= s@);
    out
}

/// The text made of `chars[from..to]`.
pub fn text_between(chars: &Vec<char>, from: usize, to: usize) -> (r: String)
    requires
        from <= to <= chars@.len(),
    ensures
        r@ == chars@.subrange(from as int, to as int),
{
    let mut out = String::new();
    let mut i: usize = from;
    while i < to
        invariant
            from <= i <= to <= chars@.len(),
            out@ == chars@.subrange(from as int, i as int),
        decreases to - i,
    {
        out.push(chars[i]);
        i += 1;
        assert(out@ =~= chars@.subrange(from as int, i as int));
    }
    out
}

/// Index of the first `c` at or after `from`.
pub fn find(chars: &Vec<char>, c: char, from: usize) -> (r: Option<usize>)
    requires
        from <= chars@.len(),
    ensures
        match r {
            Some(i) => find_from(chars@, c, from as int) == Some(i as int) && from <= i < chars@.len(),
            None => find_from(chars@, c, from as int) is None,
        },
{
    let mut i: usize = from;
    while i < chars.len()
        invariant
            from <= i <= chars@.len(),
            find_from(chars@, c, from as int) == find_from(chars@, c, i as int),
        decreases chars@.len() - i,
    {
        if chars[i] == c {
            return Some(i);
        }
        i += 1;
    }
    None
}

/// The parts before and after the first `c`, or `None` where `c` is absent.
pub fn split_once(s: &str, c: char) -> (r: Option<(String, String)>)
    ensures
        r.deep_view() == split_at_first(s@, c),
{
    let chars = chars_of(s);
    let len: usize = chars.len();
    match find(&chars, c, 0) {
        Some(i) => {
            let head = text_between(&chars, 0, i);
            let tail = text_between(&chars, i + 1, len);
            assert(head@ =~= s@.take(i as int));
            assert(tail@ =~= s@.skip(i + 1));
            Some((head, tail))
        },
        None => None,
    }
}

/// Whether the text begins with `c`.
pub fn starts_with(s: &str, c: char) -> (r: bool)
    ensures
        r == (s@.len() > 0 && s@[0] == c),
{
    let chars = chars_of(s);
    chars.len() > 0 && chars[0] == c
}

/// Whether the text begins with `prefix`.
pub fn starts_with_text(s: &str, prefix: &str) -> (r: bool)
    ensures
        r == prefix@.is_prefix_of(s@),
{
    let chars = chars_of(s);
    let start = chars_of(prefix);
    if start.len() > chars.len() {
        return false;
    }
    let mut i: usize = 0;
    while i < start.len()
        invariant
            start@ == prefix@,
            chars@ == s@,
            i <= start@.len() <= chars@.len(),
            forall|k: int| 0 <= k < i ==> start@[k] == chars@[k],
        decreases start@.len() - i,
    {
        if start[i] != chars[i] {
            assert(s@.subrange(0, prefix@.len() as int)[i as int] != prefix@[i as int]);
            return false;
        }
        i += 1;
    }
    assert(s@.subrange(0, prefix@.len() as int) =~= prefix@);
    true
}

/// Whether `needle` occurs in `s`.
pub fn contains(s: &str, needle: &str) -> (r: bool)
    ensures
        r == contains_text(s@, needle@),
{
    let hay = chars_of(s);
    let pin = chars_of(needle);
    let len: usize = hay.len();
    if pin.len() > len {
        return false;
    }
    let last: usize = len - pin.len();
    let mut i: usize = 0;
    while i <= last
        invariant
            hay@ == s@,
            pin@ == needle@,
            len == hay@.len(),
            last == len - pin@.len(),
            i <= last + 1,
            forall|k: int| 0 <= k < i ==> !#[trigger] occurs_at(s@, needle@, k),
        decreases last + 1 - i,
    {
        let mut j: usize = 0;
        while j < pin.len() && hay[i + j] == pin[j]
            invariant
                i <= last,
                len == hay@.len(),
                last == len - pin@.len(),
                j <= pin@.len(),
                forall|k: int| 0 <= k < j ==> hay@[i + k] == pin@[k],
            decreases pin@.len() - j,
        {
            j += 1;
        }
        if j == pin.len() {
            assert(s@.subrange(i as int, i + needle@.len()) =~= needle@);
            assert(occurs_at(s@, needle@, i as int));
            return true;
        }
        assert(!occurs_at(s@, needle@, i as int)) by {
            assert(s@.subrange(i as int, i + needle@.len())[j as int] != needle@[j as int]);
        }
        if i == last {
            return false;
        }
        i += 1;
    }
    false
}

/// Whether `c` has the Unicode property `White_Space`.
pub fn is_white_space(c: char) -> (r: bool)
    ensures
        r == white_space(c),
{
    let n: u32 = c as u32;
    (0x9 <= n && n <= 0xd) || n == 0x20 || n == 0x85 || n == 0xa0 || n == 0x1680 || (0x2000 <= n
        && n <= 0x200a) || n == 0x2028 || n == 0x2029 || n == 0x202f || n == 0x205f || n == 0x3000
}

/// The text without white space at either end.
pub fn trim(s: &str) -> (r: String)
    ensures
        r@ == trimmed(s@),
{
    let chars = chars_of(s);
    let mut from: usize = 0;
    assert(s@.skip(0) =~= s@);
    while from < chars.len() && is_white_space(chars[from])
        invariant
            chars@ == s@,
            from <= chars@.len(),
            trimmed_start(s@) == trimmed_start(s@.skip(from as int)),
        decreases chars@.len() - from,
    {
        assert(s@.skip(from as int).skip(1) =~= s@.skip(from + 1));
        from += 1;
    }
    let mut to: usize = chars.len();
    while to > from && is_white_space(chars[to - 1])
        invariant
            chars@ == s@,
            from <= to <= chars@.len(),
            trimmed_start(s@) == s@.skip(from as int),
            trimmed(s@) == trimmed_end(s@.subrange(from as int, to as int)),
        decreases to - from,
    {
        assert(s@.subrange(from as int, to as int).drop_last() =~= s@.subrange(
            from as int,
            to - 1,
        ));
        to -= 1;
    }
    text_between(&chars, from, to)
}

/// The text without the trailing characters equal to `c`.
pub fn trim_end_matches(s: &str, c: char) -> (r: String)
    ensures
        r@ == without_trailing(s@, c),
{
    let chars = chars_of(s);
    let mut to: usize = chars.len();
    assert(s@.take(s@.len() as int) =~= s@);
    while to > 0 && chars[to - 1] == c
        invariant
            chars@ == s@,
            to <= chars@.len(),
            without_trailing(s@, c) == without_trailing(s@.take(to as int), c),
        decreases to,
    {
        assert(s@.take(to as int).drop_last() =~= s@.take(to - 1));
        to -= 1;
    }
    let r = text_between(&chars, 0, to);
    assert(r@ =~= s@.take(to as int));
    r
}

/// ASCII letters folded to lower case.
pub fn to_lower(s: &str) -> (r: String)
    ensures
        r@ == lower(s@),
{
    let chars = chars_of(s);
    let mut out = String::new();
    for i in 0..chars.len()
        invariant
            chars@ == s@,
            out@ == lower(s@).take(i as int),
    {
        let c: char = chars[i];
        let folded: char = if 'A' <= c && c <= 'Z' {
            (c as u8 + 32) as char
        } else {
            c
        };
        out.push(folded);
        assert(out@ =~= lower(s@).take(i + 1));
    }
    assert(lower(s@).take(s@.len() as int) =~= lower(s@));
    out
}

/// ASCII letters folded to upper case.
pub fn to_upper(s: &str) -> (r: String)
    ensures
        r@ == upper(s@),
{
    let chars = chars_of(s);
    let mut out = String::new();
    for i in 0..chars.len()
        invariant
            chars@ == s@,
            out@ == upper(s@).take(i as int),
    {
        let c: char = chars[i];
        let folded: char = if 'a' <= c && c <= 'z' {
            (c as u8 - 32) as char
        } else {
            c
        };
        out.push(folded);
        assert(out@ =~= upper(s@).take(i + 1));
    }
    assert(upper(s@).take(s@.len() as int) =~= upper(s@));
    out
}

fn skip_white_space(chars: &Vec<char>, from: usize) -> (r: usize)
    requires
        from <= chars@.len(),
    ensures
        r == word_start(chars@, from as int),
        from <= r <= chars@.len(),
{
    let mut i: usize = from;
    while i < chars.len() && is_white_space(chars[i])
        invariant
            from <= i <= chars@.len(),
            word_start(chars@, from as int) == word_start(chars@, i as int),
        decreases chars@.len() - i,
    {
        i += 1;
    }
    i
}

fn skip_word(chars: &Vec<char>, from: usize) -> (r: usize)
    requires
        from <= chars@.len(),
    ensures
        r == word_end(chars@, from as int),
        from <= r <= chars@.len(),
{
    let mut i: usize = from;
    while i < chars.len() && !is_white_space(chars[i])
        invariant
            from <= i <= chars@.len(),
            word_end(chars@, from as int) == word_end(chars@, i as int),
        decreases chars@.len() - i,
    {
        i += 1;
    }
    i
}

/// The words that white space separates.
pub fn words(s: &str) -> (r: Vec<String>)
    ensures
        r.deep_view() == words_of(s@),
{
    let chars = chars_of(s);
    let len: usize = chars.len();
    let mut out: Vec<String> = Vec::new();
    let mut i: usize = 0;
    assert(out.deep_view() + words_of(s@) =~= words_of(s@));
    loop
        invariant
            chars@ == s@,
            len == chars@.len(),
            i <= len,
            out.deep_view() + words_from(s@, i as int) == words_of(s@),
        decreases len - i,
    {
        let from = skip_white_space(&chars, i);
        if from >= len {
            assert(out.deep_view() =~= words_of(s@));
            return out;
        }
        let to = skip_word(&chars, from);
        proof {
            lemma_word_bounds(s@, i as int);
            lemma_word_bounds(s@, from + 1);
        }
        let ghost before = out.deep_view();
        let word = text_between(&chars, from, to);
        out.push(word);
        assert(out.deep_view() =~= before.push(word@));
        assert(before.push(word@) + words_from(s@, to as int) =~= before + (seq![word@]
            + words_from(s@, to as int)));
        i = to;
    }
}

/// A text without its last character.
pub fn without_last(s: &str) -> (r: String)
    ensures
        r@ == (if s@.len() > 0 {
            s@.drop_last()
        } else {
            s@
        }),
{
    let chars = chars_of(s);
    let len: usize = chars.len();
    if len > 0 {
        let r = text_between(&chars, 0, len - 1);
        assert(r@ =~= s@.drop_last());
        r
    } else {
        owned(s)
    }
}

/// The lines of a text, without their line ends.
pub fn lines(s: &str) -> (r: Vec<String>)
    ensures
        r.deep_view() == lines_of(s@),
{
    let chars = chars_of(s);
    let len: usize = chars.len();
    let mut out: Vec<String> = Vec::new();
    let mut from: usize = 0;
    assert(out.deep_view() + lines_of(s@) =~= lines_of(s@));
    while from < len
        invariant
            chars@ == s@,
            len == chars@.len(),
            from <= len,
            out.deep_view() + lines_from(s@, from as int) == lines_of(s@),
        decreases len - from,
    {
        let ghost before = out.deep_view();
        match find(&chars, '\n', from) {
            Some(p) => {
                let end: usize = if p > from && chars[p - 1] == '\r' {
                    p - 1
                } else {
                    p
                };
                let line = text_between(&chars, from, end);
                assert(line@ =~= without_return(s@.subrange(from as int, p as int)));
                out.push(line);
                assert(out.deep_view() =~= before.push(line@));
                assert(before.push(line@) + lines_from(s@, p + 1) =~= before + (seq![line@]
                    + lines_from(s@, p + 1)));
                from = p + 1;
            },
            None => {
                let line = text_between(&chars, from, len);
                assert(line@ =~= s@.skip(from as int));
                out.push(line);
                assert(out.deep_view() =~= before + seq![line@]);
                return out;
            },
        }
    }
    assert(out.deep_view() =~= lines_of(s@));
    out
}

// ---------------------------------------------------------------- building

/// An owned copy of a text.
pub fn owned(s: &str) -> (r: String)
    ensures
        r@ == s@,
{
    s.to_owned()
}

/// Two texts one after the other.
pub fn cat(a: &str, b: &str) -> (r: String)
    ensures
        r@ == a@ + b@,
{
    let mut out = owned(a);
    out.append(b);
    out
}

/// Three texts one after the other.
pub fn cat3(a: &str, b: &str, c: &str) -> (r: String)
    ensures
        r@ == a@ + b@ + c@,
{
    let mut out = cat(a, b);
    out.append(c);
    out
}

/// The parts with `sep` between neighbours.
pub fn join(parts: &Vec<String>, sep: &str) -> (r: String)
    ensures
        r@ == joined(parts.deep_view(), sep@),
{
    let mut out = String::new();
    let ghost all = parts.deep_view();
    for i in 0..parts.len()
        invariant
            all == parts.deep_view(),
            i < all.len() ==> out@ + (if i == 0 {
                Seq::empty()
            } else {
                sep@
            }) + joined_from(all, sep@, i as int) == joined(all, sep@),
            i == all.len() ==> out@ == joined(all, sep@),
    {
        let ghost before = out@;
        if i > 0 {
            out.append(sep);
        }
        out.append(parts[i].as_str());
        assert(out@ + sep@ + joined_from(all, sep@, i + 1) =~= before + (if i == 0 {
            Seq::empty()
        } else {
            sep@
        }) + (all[i as int] + sep@ + joined_from(all, sep@, i + 1)));
        assert(before + Seq::<char>::empty() =~= before);
        assert(out@ =~= before + (if i == 0 {
            Seq::empty()
        } else {
            sep@
        }) + all[i as int]);
    }
    out
}

/// `unit` repeated `n` times.
pub fn repeat(unit: &str, n: usize) -> (r: String)
    ensures
        r@ == repeated(unit@, n as nat),
{
    let mut out = String::new();
    for i in 0..n
        invariant
            out@ == repeated(unit@, i as nat),
    {
        out.append(unit);
    }
    out
}

/// `n` spaces.
fn spaces(n: usize) -> (r: String)
    ensures
        r@ == Seq::new(n as nat, |i: int| ' '),
{
    let mut out = String::new();
    for i in 0..n
        invariant
            out@ == Seq::new(i as nat, |k: int| ' '),
    {
        out.push(' ');
        assert(out@ =~= Seq::new((i + 1) as nat, |k: int| ' '));
    }
    out
}

/// The text followed by spaces up to `width` characters.
pub fn pad(s: &str, width: usize) -> (r: String)
    ensures
        r@ == padded(s@, width as nat),
{
    let len: usize = s.unicode_len();
    if len < width {
        let fill = spaces(width - len);
        cat(s, fill.as_str())
    } else {
        owned(s)
    }
}

/// The text preceded by spaces up to `width` characters.
pub fn pad_left(s: &str, width: usize) -> (r: String)
    ensures
        r@ == padded_left(s@, width as nat),
{
    let len: usize = s.unicode_len();
    if len < width {
        let fill = spaces(width - len);
        cat(fill.as_str(), s)
    } else {
        owned(s)
    }
}

// ---------------------------------------------------------------- numbers

fn digit(d: u64) -> (c: char)
    requires
        d < 10,
    ensures
        c == digit_char(d as nat),
{
    (48 + d as u8) as char
}

/// Decimal notation of an unsigned number.
pub fn show(n: u64) -> (r: String)
    ensures
        r@ == decimal(n as nat),
    decreases n,
{
    if n < 10 {
        let mut out = String::new();
        out.push(digit(n));
        assert(out@ =~= decimal(n as nat));
        out
    } else {
        let mut out = show(n / 10);
        out.push(digit(n % 10));
        out
    }
}

/// Decimal notation of a signed number.
pub fn show_signed(n: i64) -> (r: String)
    ensures
        r@ == signed_decimal(n as int),
{
    if n < 0 {
        let magnitude: u64 = if n == i64::MIN {
            9223372036854775808
        } else {
            (-n) as u64
        };
        let digits = show(magnitude);
        let mut out = String::new();
        out.push('-');
        assert(out@ =~= seq!['-']);
        out.append(digits.as_str());
        out
    } else {
        show(n as u64)
    }
}

proof fn lemma_digits_prefix(s: Seq<char>, i: int)
    requires
        all_digits(s),
        0 <= i <= s.len(),
    ensures
        digits_value(s.take(i)) <= digits_value(s),
    decreases s.len(),
{
    if i < s.len() {
        assert(s.drop_last().take(i) =~= s.take(i));
        lemma_digits_prefix(s.drop_last(), i);
    } else {
        assert(s.take(i) =~= s);
    }
}

/// The value of a digit sequence, or `None` where it exceeds `limit`.
pub fn digits_within(chars: &Vec<char>, from: usize, limit: u64) -> (r: Option<u64>)
    requires
        from <= chars@.len(),
        all_digits(chars@.skip(from as int)),
    ensures
        match r {
            Some(n) => n == digits_value(chars@.skip(from as int)) && n <= limit,
            None => digits_value(chars@.skip(from as int)) > limit,
        },
{
    let ghost body = chars@.skip(from as int);
    let mut value: u64 = 0;
    let mut i: usize = from;
    while i < chars.len()
        invariant
            from <= i <= chars@.len(),
            body == chars@.skip(from as int),
            all_digits(body),
            value == digits_value(body.take(i - from)),
            value <= limit,
        decreases chars@.len() - i,
    {
        assert(chars@[i as int] == body[i - from]);
        assert(is_digit(body[i - from]));
        let d: u64 = (chars[i] as u8 - 48) as u64;
        assert(body.take(i + 1 - from).drop_last() =~= body.take(i - from));
        assert(digits_value(body.take(i + 1 - from)) == value * 10 + d);
        proof {
            lemma_digits_prefix(body, i + 1 - from);
        }
        if d > limit || value > (limit - d) / 10 {
            assert(value * 10 + d > limit);
            return None;
        }
        value = value * 10 + d;
        i += 1;
    }
    assert(body.take(chars@.len() - from) =~= body);
    Some(value)
}

pub fn digits_from(chars: &Vec<char>, from: usize) -> (r: bool)
    requires
        from <= chars@.len(),
    ensures
        r == all_digits(chars@.skip(from as int)),
{
    let mut i: usize = from;
    while i < chars.len()
        invariant
            from <= i <= chars@.len(),
            forall|k: int| 0 <= k < i - from ==> is_digit(#[trigger] chars@.skip(from as int)[k]),
        decreases chars@.len() - i,
    {
        let c: char = chars[i];
        assert(chars@.skip(from as int)[i - from] == c);
        if !('0' <= c && c <= '9') {
            return false;
        }
        i += 1;
    }
    true
}

/// The signed integer that a text denotes, or `None` where it denotes none in range.
pub fn parse_signed(s: &str) -> (r: Option<i64>)
    ensures
        match r {
            Some(n) => integer_of(s@) == Some(n as int),
            None => match integer_of(s@) {
                Some(n) => n < i64::MIN || n > i64::MAX,
                None => true,
            },
        },
{
    let chars = chars_of(s);
    let signed = chars.len() > 0 && (chars[0] == '-' || chars[0] == '+');
    let from: usize = if signed {
        1
    } else {
        0
    };
    assert(s@.skip(0) =~= s@);
    if chars.len() == from || !digits_from(&chars, from) {
        return None;
    }
    if chars[0] == '-' {
        match digits_within(&chars, from, 9223372036854775808) {
            Some(n) => {
                if n == 9223372036854775808 {
                    Some(i64::MIN)
                } else {
                    Some(-(n as i64))
                }
            },
            None => None,
        }
    } else {
        match digits_within(&chars, from, 9223372036854775807) {
            Some(n) => Some(n as i64),
            None => None,
        }
    }
}

} // verus!
