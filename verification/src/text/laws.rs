//! What searching, splitting, trimming and number notation promise of any text.

use super::{
    all_digits, decimal, digit_char, digits_value, find_from, integer_of, is_digit, joined,
    joined_from, lemma_word_bounds, lines_from, lines_of, lower, occurs_at, padded, padded_left,
    signed_decimal, trimmed, trimmed_end, trimmed_start, upper, white_space, without_trailing,
    word_end, word_start, words_from, words_of,
};
use vstd::prelude::*;

verus! {

/// The character stands nowhere in the text.
pub open spec fn lacks(s: Seq<char>, c: char) -> bool {
    forall|k: int| 0 <= k < s.len() ==> #[trigger] s[k] != c
}

/// What is found is the first occurrence, and nothing is found only where there
/// is none.
pub proof fn law_found_is_first(s: Seq<char>, c: char, i: int)
    requires
        0 <= i,
    ensures
        match find_from(s, c, i) {
            Some(p) => i <= p < s.len() && s[p] == c && forall|k: int|
                i <= k < p ==> #[trigger] s[k] != c,
            None => forall|k: int| i <= k < s.len() ==> #[trigger] s[k] != c,
        },
    decreases s.len() - i,
{
    if i < s.len() && s[i] != c {
        law_found_is_first(s, c, i + 1);
    }
}

/// The first occurrence is found.
pub proof fn law_first_is_found(s: Seq<char>, c: char, i: int, at: int)
    requires
        0 <= i <= at < s.len(),
        s[at] == c,
        forall|k: int| i <= k < at ==> #[trigger] s[k] != c,
    ensures
        find_from(s, c, i) == Some(at),
    decreases at - i,
{
    if i < at {
        law_first_is_found(s, c, i + 1, at);
    }
}

/// A text with `lead` in front is searched as the text itself.
pub proof fn lemma_found_behind(lead: Seq<char>, s: Seq<char>, c: char, i: int)
    requires
        0 <= i <= s.len(),
    ensures
        find_from(lead + s, c, lead.len() + i) == (match find_from(s, c, i) {
            Some(p) => Some(lead.len() + p),
            None => None::<int>,
        }),
    decreases s.len() - i,
{
    if i < s.len() {
        assert((lead + s)[lead.len() + i] == s[i]);
        if s[i] != c {
            lemma_found_behind(lead, s, c, i + 1);
        }
    }
}

/// Trimming takes white space from both ends and nothing else.
pub proof fn law_trimmed(s: Seq<char>) -> (cut: (int, int))
    ensures
        0 <= cut.0 <= cut.1 <= s.len(),
        trimmed(s) == s.subrange(cut.0, cut.1),
        forall|k: int| 0 <= k < cut.0 ==> white_space(#[trigger] s[k]),
        forall|k: int| cut.1 <= k < s.len() ==> white_space(#[trigger] s[k]),
        trimmed(s).len() > 0 ==> !white_space(trimmed(s)[0]) && !white_space(trimmed(s).last()),
{
    let from = lemma_trimmed_start(s);
    let rest = trimmed_start(s);
    let len = lemma_trimmed_end(rest);
    assert(trimmed(s) =~= s.subrange(from, from + len));
    assert forall|k: int| from + len <= k < s.len() implies white_space(#[trigger] s[k]) by {
        assert(s[k] == rest[k - from]);
    }
    (from, from + len)
}

proof fn lemma_trimmed_start(s: Seq<char>) -> (cut: int)
    ensures
        0 <= cut <= s.len(),
        trimmed_start(s) == s.skip(cut),
        forall|k: int| 0 <= k < cut ==> white_space(#[trigger] s[k]),
        cut < s.len() ==> !white_space(s[cut]),
    decreases s.len(),
{
    if s.len() > 0 && white_space(s[0]) {
        let rest = lemma_trimmed_start(s.skip(1));
        assert(s.skip(1).skip(rest) =~= s.skip(rest + 1));
        assert forall|k: int| 0 <= k < rest + 1 implies white_space(#[trigger] s[k]) by {
            if k > 0 {
                assert(s[k] == s.skip(1)[k - 1]);
            }
        }
        rest + 1
    } else {
        assert(s.skip(0) =~= s);
        0
    }
}

proof fn lemma_trimmed_end(s: Seq<char>) -> (len: int)
    ensures
        0 <= len <= s.len(),
        trimmed_end(s) == s.take(len),
        forall|k: int| len <= k < s.len() ==> white_space(#[trigger] s[k]),
        len > 0 ==> !white_space(s[len - 1]),
    decreases s.len(),
{
    if s.len() > 0 && white_space(s.last()) {
        let len = lemma_trimmed_end(s.drop_last());
        assert(s.drop_last().take(len) =~= s.take(len));
        assert forall|k: int| len <= k < s.len() implies white_space(#[trigger] s[k]) by {
            if k < s.len() - 1 {
                assert(s[k] == s.drop_last()[k]);
            }
        }
        len
    } else {
        assert(s.take(s.len() as int) =~= s);
        s.len() as int
    }
}

/// Only the characters at the end that equal `c` are taken away, and all of them.
pub proof fn law_without_trailing(s: Seq<char>, c: char) -> (len: int)
    ensures
        0 <= len <= s.len(),
        without_trailing(s, c) == s.take(len),
        forall|k: int| len <= k < s.len() ==> #[trigger] s[k] == c,
        len > 0 ==> s[len - 1] != c,
    decreases s.len(),
{
    if s.len() > 0 && s.last() == c {
        let len = law_without_trailing(s.drop_last(), c);
        assert(s.drop_last().take(len) =~= s.take(len));
        assert forall|k: int| len <= k < s.len() implies #[trigger] s[k] == c by {
            if k < s.len() - 1 {
                assert(s[k] == s.drop_last()[k]);
            }
        }
        len
    } else {
        assert(s.take(s.len() as int) =~= s);
        s.len() as int
    }
}

/// Decimal notation is read back as the number: digits only, and no zero in
/// front but that of zero itself.
pub proof fn law_decimal_is_read_back(n: nat)
    ensures
        all_digits(decimal(n)),
        digits_value(decimal(n)) == n,
        decimal(n).len() > 0,
        n > 0 ==> decimal(n)[0] != '0',
    decreases n,
{
    if n >= 10 {
        law_decimal_is_read_back(n / 10);
        let front = decimal(n / 10);
        assert(decimal(n).drop_last() =~= front);
        assert(decimal(n)[0] == front[0]);
        assert forall|i: int| 0 <= i < decimal(n).len() implies is_digit(
            #[trigger] decimal(n)[i],
        ) by {
            if i < front.len() {
                assert(decimal(n)[i] == front[i]);
            }
        }
    } else {
        assert(decimal(n).drop_last() =~= Seq::empty());
        assert(digits_value(Seq::empty()) == 0);
        assert(decimal(n).last() == digit_char(n));
    }
}

/// An integer that is written down is read back.
pub proof fn law_signed_decimal_is_read_back(n: int)
    ensures
        integer_of(signed_decimal(n)) == Some(n),
{
    if n < 0 {
        let digits = decimal((-n) as nat);
        law_decimal_is_read_back((-n) as nat);
        assert(signed_decimal(n).skip(1) =~= digits);
    } else {
        law_decimal_is_read_back(n as nat);
        assert(is_digit(decimal(n as nat)[0]));
    }
}

/// Folding the case changes ASCII letters only, and leaves none of the other case.
pub proof fn law_case_folding(s: Seq<char>)
    ensures
        lower(s).len() == s.len(),
        upper(s).len() == s.len(),
        forall|k: int|
            0 <= k < s.len() ==> {
                &&& !('A' <= #[trigger] lower(s)[k] <= 'Z')
                &&& lower(s)[k] as int == (if 'A' <= s[k] <= 'Z' {
                    s[k] as int - 'A' as int + 'a' as int
                } else {
                    s[k] as int
                })
            },
        forall|k: int|
            0 <= k < s.len() ==> {
                &&& !('a' <= #[trigger] upper(s)[k] <= 'z')
                &&& upper(s)[k] as int == (if 'a' <= s[k] <= 'z' {
                    s[k] as int - 'a' as int + 'A' as int
                } else {
                    s[k] as int
                })
            },
{
}

/// Padding keeps the text, adds spaces only, and stops at the width.
pub proof fn law_padding(s: Seq<char>, width: nat)
    ensures
        padded(s, width).len() == (if s.len() < width {
            width
        } else {
            s.len()
        }),
        padded(s, width).take(s.len() as int) == s,
        forall|k: int| s.len() <= k < padded(s, width).len() ==> #[trigger] padded(s, width)[k] == ' ',
        padded_left(s, width).len() == padded(s, width).len(),
        padded_left(s, width).skip(padded_left(s, width).len() - s.len()) == s,
        forall|k: int|
            0 <= k < padded_left(s, width).len() - s.len() ==> #[trigger] padded_left(s, width)[k]
                == ' ',
{
    assert(padded(s, width).take(s.len() as int) =~= s);
    assert(padded_left(s, width).skip(padded_left(s, width).len() - s.len()) =~= s);
}

/// Joining puts the separator between neighbours, and nowhere else.
pub proof fn law_joined(parts: Seq<Seq<char>>, last: Seq<char>, sep: Seq<char>)
    ensures
        joined(Seq::empty(), sep) == Seq::<char>::empty(),
        joined(seq![last], sep) == last,
        parts.len() > 0 ==> joined(parts.push(last), sep) == joined(parts, sep) + sep + last,
{
    if parts.len() > 0 {
        lemma_joined_more(parts, last, sep, 0);
    }
}

proof fn lemma_joined_more(parts: Seq<Seq<char>>, last: Seq<char>, sep: Seq<char>, i: int)
    requires
        0 <= i < parts.len(),
    ensures
        joined_from(parts.push(last), sep, i) == joined_from(parts, sep, i) + sep + last,
    decreases parts.len() - i,
{
    reveal_with_fuel(joined_from, 2);
    let more = parts.push(last);
    assert(more[i] == parts[i]);
    if i + 1 == parts.len() {
        assert(more[i + 1] == last);
        assert(parts[i] + sep + last =~= joined_from(parts, sep, i) + sep + last);
    } else {
        lemma_joined_more(parts, last, sep, i + 1);
        assert(parts[i] + sep + (joined_from(parts, sep, i + 1) + sep + last) =~= parts[i] + sep
            + joined_from(parts, sep, i + 1) + sep + last);
    }
}

/// The first line of a text ends at its first line feed, without the carriage
/// return before it; what follows is split in the same way.
pub proof fn law_lines(line: Seq<char>, rest: Seq<char>)
    requires
        lacks(line, '\n'),
    ensures
        lines_of(Seq::empty()) == Seq::<Seq<char>>::empty(),
        line.len() > 0 ==> lines_of(line) == seq![line],
        lines_of(line + seq!['\n'] + rest) == seq![
            if line.len() > 0 && line.last() == '\r' {
                line.drop_last()
            } else {
                line
            },
        ] + lines_of(rest),
{
    let all = line + seq!['\n'] + rest;
    let lead = line + seq!['\n'];
    if line.len() > 0 {
        law_found_is_first(line, '\n', 0);
        assert(line.skip(0) =~= line);
    }
    assert forall|k: int| 0 <= k < line.len() implies #[trigger] all[k] != '\n' by {
        assert(all[k] == line[k]);
    }
    law_first_is_found(all, '\n', 0, line.len() as int);
    assert(all.subrange(0, line.len() as int) =~= line);
    lemma_lines_behind(lead, rest, 0);
    assert(all =~= lead + rest);
}

proof fn lemma_lines_behind(lead: Seq<char>, s: Seq<char>, i: int)
    requires
        0 <= i <= s.len(),
    ensures
        lines_from(lead + s, lead.len() + i) == lines_from(s, i),
    decreases s.len() - i,
{
    if i < s.len() {
        lemma_found_behind(lead, s, '\n', i);
        law_found_is_first(s, '\n', i);
        match find_from(s, '\n', i) {
            Some(p) => {
                lemma_lines_behind(lead, s, p + 1);
                assert((lead + s).subrange(lead.len() + i, lead.len() + p) =~= s.subrange(i, p));
            },
            None => {
                assert((lead + s).skip(lead.len() + i) =~= s.skip(i));
            },
        }
    }
}

/// A needle occurs at a position exactly where the characters agree one by one.
pub proof fn law_occurs_at(s: Seq<char>, needle: Seq<char>, i: int)
    ensures
        occurs_at(s, needle, i) <==> 0 <= i && i + needle.len() <= s.len() && forall|k: int|
            0 <= k < needle.len() ==> s[i + k] == #[trigger] needle[k],
{
    if 0 <= i && i + needle.len() <= s.len() {
        let part = s.subrange(i, i + needle.len());
        if part == needle {
            assert forall|k: int| 0 <= k < needle.len() implies s[i + k] == #[trigger] needle[k] by {
                assert(part[k] == needle[k]);
            }
        }
        if forall|k: int| 0 <= k < needle.len() ==> s[i + k] == #[trigger] needle[k] {
            assert(part =~= needle);
        }
    }
}

/// The text has characters, and none of them is white space.
pub open spec fn solid(s: Seq<char>) -> bool {
    s.len() > 0 && forall|k: int| 0 <= k < s.len() ==> !white_space(#[trigger] s[k])
}

/// White space separates words: what stands before it is a word, and what stands
/// behind it is split in the same way.
pub proof fn law_words(word: Seq<char>, gap: char, rest: Seq<char>)
    requires
        solid(word),
        white_space(gap),
    ensures
        words_of(Seq::empty()) == Seq::<Seq<char>>::empty(),
        words_of(word) == seq![word],
        words_of(seq![gap] + rest) == words_of(rest),
        words_of(word + seq![gap] + rest) == seq![word] + words_of(rest),
{
    let all = word + seq![gap] + rest;
    let n = word.len() as int;
    reveal_with_fuel(words_from, 2);
    lemma_word_ends(word, 0, n);
    assert(word.subrange(0, n) =~= word);
    assert forall|k: int| 0 <= k < n implies !white_space(#[trigger] all[k]) by {
        assert(all[k] == word[k]);
    }
    assert(all[n] == gap);
    lemma_word_ends(all, 0, n);
    assert(all.subrange(0, n) =~= word);
    let behind = seq![gap] + rest;
    assert(all =~= word + behind);
    lemma_words_behind(word, behind, 0);
    lemma_words_behind(seq![gap], rest, 0);
    assert(word_start(behind, 0) == word_start(behind, 1));
    lemma_same_words(behind, 0);
}

proof fn lemma_word_ends(s: Seq<char>, i: int, end: int)
    requires
        0 <= i <= end <= s.len(),
        forall|k: int| i <= k < end ==> !white_space(#[trigger] s[k]),
        end < s.len() ==> white_space(s[end]),
    ensures
        word_end(s, i) == end,
    decreases end - i,
{
    if i < end {
        lemma_word_ends(s, i + 1, end);
    }
}

/// Leading white space makes no difference.
proof fn lemma_same_words(s: Seq<char>, i: int)
    requires
        0 <= i < s.len(),
        white_space(s[i]),
    ensures
        words_from(s, i) == words_from(s, i + 1),
{
    assert(word_start(s, i) == word_start(s, i + 1));
}

proof fn lemma_bounds_behind(lead: Seq<char>, s: Seq<char>, i: int)
    requires
        0 <= i <= s.len(),
    ensures
        word_start(lead + s, lead.len() + i) == lead.len() + word_start(s, i),
        word_end(lead + s, lead.len() + i) == lead.len() + word_end(s, i),
    decreases s.len() - i,
{
    if i < s.len() {
        assert((lead + s)[lead.len() + i] == s[i]);
        lemma_bounds_behind(lead, s, i + 1);
    }
}

proof fn lemma_words_behind(lead: Seq<char>, s: Seq<char>, i: int)
    requires
        0 <= i <= s.len(),
    ensures
        words_from(lead + s, lead.len() + i) == words_from(s, i),
    decreases s.len() - i,
{
    let all = lead + s;
    let n = lead.len() as int;
    lemma_bounds_behind(lead, s, i);
    lemma_word_bounds(s, i);
    let from = word_start(s, i);
    lemma_bounds_behind(lead, s, from);
    lemma_word_bounds(s, from);
    if from < s.len() {
        lemma_word_bounds(s, from + 1);
        let to = word_end(s, from);
        assert(all[n + from] == s[from]);
        lemma_words_behind(lead, s, to);
        assert(all.subrange(n + from, n + to) =~= s.subrange(from, to));
    }
}

} // verus!
