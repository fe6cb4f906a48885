//! Text as the protocol needs it: numbers written out in decimal, and a line
//! cut into words.

use vstd::prelude::*;

verus! {

/// The character for one decimal digit.
pub open spec fn digit_of(d: int) -> char {
    if d == 0 {
        '0'
    } else if d == 1 {
        '1'
    } else if d == 2 {
        '2'
    } else if d == 3 {
        '3'
    } else if d == 4 {
        '4'
    } else if d == 5 {
        '5'
    } else if d == 6 {
        '6'
    } else if d == 7 {
        '7'
    } else if d == 8 {
        '8'
    } else {
        '9'
    }
}

/// A natural number in decimal, without leading zeros.
pub open spec fn digits_of(n: nat) -> Seq<char>
    decreases n,
{
    if n < 10 {
        seq![digit_of(n as int)]
    } else {
        digits_of(n / 10).push(digit_of((n % 10) as int))
    }
}

/// An integer in decimal, with a minus sign where it is negative.
pub open spec fn decimal_of(n: int) -> Seq<char> {
    if n < 0 {
        seq!['-'] + digits_of((-n) as nat)
    } else {
        digits_of(n as nat)
    }
}

/// One digit as a string.
fn digit_str(d: u32) -> (s: &'static str)
    requires
        d < 10,
    ensures
        s@ == seq![digit_of(d as int)],
{
    proof {
        reveal_strlit("0");
        reveal_strlit("1");
        reveal_strlit("2");
        reveal_strlit("3");
        reveal_strlit("4");
        reveal_strlit("5");
        reveal_strlit("6");
        reveal_strlit("7");
        reveal_strlit("8");
        reveal_strlit("9");
    }
    let s = if d == 0 {
        "0"
    } else if d == 1 {
        "1"
    } else if d == 2 {
        "2"
    } else if d == 3 {
        "3"
    } else if d == 4 {
        "4"
    } else if d == 5 {
        "5"
    } else if d == 6 {
        "6"
    } else if d == 7 {
        "7"
    } else if d == 8 {
        "8"
    } else {
        "9"
    };
    assert(s@ =~= seq![digit_of(d as int)]);
    s
}

/// Appends a natural number in decimal.
fn push_digits(text: &mut String, n: u32)
    ensures
        final(text)@ == old(text)@ + digits_of(n as nat),
    decreases n,
{
    if n >= 10 {
        push_digits(text, n / 10);
    }
    text.append(digit_str(n % 10));
    assert(text@ =~= old(text)@ + digits_of(n as nat));
}

/// Appends an integer in decimal.
pub fn push_decimal(text: &mut String, n: i32)
    ensures
        final(text)@ == old(text)@ + decimal_of(n as int),
{
    if n < 0 {
        proof {
            reveal_strlit("-");
        }
        text.append("-");
        let magnitude: u32 = (-(n as i64)) as u32;
        push_digits(text, magnitude);
        assert(text@ =~= old(text)@ + decimal_of(n as int));
    } else {
        push_digits(text, n as u32);
    }
}

/// Reads bytes as UTF-8 text by `core::str::from_utf8`. Nothing is proved
/// of it: the contract says, as the function documents, that it accepts
/// exactly the well-formed UTF-8 sequences and that the text it hands back
/// is what the bytes it was given decode to.
#[verifier::external_body]
pub(crate) fn read_utf8(data: &[u8]) -> (text: Option<&str>)
    ensures
        text is Some <==> vstd::utf8::valid_utf8(data@),
        text matches Some(t) ==> t@ == vstd::utf8::decode_utf8(data@),
{
    std::str::from_utf8(data).ok()
}

/// Whether the characters of `chars` from `from` up to `to` spell `word`.
pub fn spells(chars: &Vec<char>, from: usize, to: usize, word: &str) -> (same: bool)
    requires
        from <= to <= chars@.len(),
    ensures
        same == (chars@.subrange(from as int, to as int) == word@),
{
    let letters = chars_of(word);
    if letters.len() != to - from {
        return false;
    }
    let mut i: usize = 0;
    while i < letters.len()
        invariant
            from <= to <= chars@.len(),
            letters@ == word@,
            letters@.len() == to - from,
            i <= letters@.len(),
            forall|k: int| 0 <= k < i ==> chars@[from + k] == letters@[k],
        decreases letters@.len() - i,
    {
        if chars[from + i] != letters[i] {
            assert(chars@.subrange(from as int, to as int)[i as int] != word@[i as int]);
            return false;
        }
        i += 1;
    }
    assert(chars@.subrange(from as int, to as int) =~= word@);
    true
}

/// The characters of a string, one by one.
pub fn chars_of(text: &str) -> (chars: Vec<char>)
    ensures
        chars@ == text@,
{
    let mut chars: Vec<char> = Vec::new();
    for c in it: text.chars()
        invariant
            it.seq() == text@,
            chars@ == it.seq().take(it.index() as int),
    {
        chars.push(c);
        assert(it.seq().take(it.index() + 1) =~= it.seq().take(it.index() as int).push(c));
    }
    assert(chars@ =~= text@);
    chars
}

/// The characters that separate words: space, tab, line feed, form feed
/// and carriage return.
pub open spec fn is_blank(c: char) -> bool {
    c == ' ' || c == '\t' || c == '\n' || c == '\x0C' || c == '\r'
}

/// How many characters stand before the first blank of `s`.
pub open spec fn word_len(s: Seq<char>) -> nat
    decreases s.len(),
{
    if s.len() == 0 || is_blank(s[0]) {
        0
    } else {
        1 + word_len(s.drop_first())
    }
}

/// The words of a line: the longest runs of characters that are not blank,
/// from left to right.
pub open spec fn words_of(s: Seq<char>) -> Seq<Seq<char>>
    decreases s.len(),
    via words_of_terminates
{
    if s.len() == 0 {
        Seq::empty()
    } else if is_blank(s[0]) {
        words_of(s.drop_first())
    } else {
        seq![s.take(word_len(s) as int)] + words_of(s.skip(word_len(s) as int))
    }
}

#[via_fn]
proof fn words_of_terminates(s: Seq<char>) {
    lemma_word_len(s);
}

/// A first word is no longer than the line, holds no blank, ends at a blank
/// or at the end of the line, and is not empty where the line begins with
/// anything but a blank.
pub proof fn lemma_word_len(s: Seq<char>)
    ensures
        word_len(s) <= s.len(),
        s.len() > 0 && !is_blank(s[0]) ==> word_len(s) > 0,
        forall|i: int| 0 <= i < word_len(s) ==> !is_blank(#[trigger] s[i]),
        word_len(s) < s.len() ==> is_blank(s[word_len(s) as int]),
    decreases s.len(),
{
    if s.len() > 0 && !is_blank(s[0]) {
        lemma_word_len(s.drop_first());
        assert forall|i: int| 0 <= i < word_len(s) implies !is_blank(#[trigger] s[i]) by {
            if i > 0 {
                assert(s[i] == s.drop_first()[i - 1]);
            }
        }
    }
}

/// Blanks in front of a line do not change its words.
proof fn lemma_skip_blank(s: Seq<char>, i: int)
    requires
        0 <= i < s.len(),
        is_blank(s[i]),
    ensures
        words_of(s.skip(i)) == words_of(s.skip(i + 1)),
{
    assert(s.skip(i).drop_first() =~= s.skip(i + 1));
}

/// A word that runs from `start` to `end` is the first word of what begins
/// at `start`, and the other words are those of what begins at `end`.
proof fn lemma_first_word(s: Seq<char>, start: int, end: int)
    requires
        0 <= start < end <= s.len(),
        forall|i: int| start <= i < end ==> !is_blank(#[trigger] s[i]),
        end < s.len() ==> is_blank(s[end]),
    ensures
        words_of(s.skip(start)) == seq![s.subrange(start, end)] + words_of(s.skip(end)),
{
    let rest = s.skip(start);
    lemma_word_len(rest);
    let n = word_len(rest) as int;
    if n < end - start {
        assert(rest[n] == s[start + n]);
    }
    if n > end - start {
        assert(rest[end - start] == s[end]);
    }
    assert(rest.take(n) =~= s.subrange(start, end));
    assert(rest.skip(n) =~= s.skip(end));
}

/// Whether a character separates words.
pub fn is_blank_char(c: char) -> (blank: bool)
    ensures
        blank == is_blank(c),
{
    c == ' ' || c == '\t' || c == '\n' || c == '\x0C' || c == '\r'
}

/// The pieces of `chars` that the spans mark out.
pub open spec fn cut(chars: Seq<char>, spans: Seq<(usize, usize)>) -> Seq<Seq<char>> {
    Seq::new(spans.len(), |i: int| chars.subrange(spans[i].0 as int, spans[i].1 as int))
}

/// Finds the words of a line: for each, where it begins and where it ends.
pub fn word_spans(chars: &Vec<char>) -> (spans: Vec<(usize, usize)>)
    ensures
        cut(chars@, spans@) == words_of(chars@),
        forall|i: int|
            0 <= i < spans@.len() ==> (#[trigger] spans@[i]).0 < spans@[i].1 <= chars@.len(),
{
    let mut spans: Vec<(usize, usize)> = Vec::new();
    let ghost line = chars@;
    let mut i: usize = 0;
    assert(line.skip(0) =~= line);
    assert(cut(line, spans@) + words_of(line.skip(0)) =~= words_of(line));
    while i < chars.len()
        invariant
            line == chars@,
            i <= line.len(),
            words_of(line) == cut(line, spans@) + words_of(line.skip(i as int)),
            forall|k: int|
                0 <= k < spans@.len() ==> (#[trigger] spans@[k]).0 < spans@[k].1 <= line.len(),
        decreases line.len() - i,
    {
        if is_blank_char(chars[i]) {
            proof {
                lemma_skip_blank(line, i as int);
            }
            i += 1;
        } else {
            let start = i;
            while i < chars.len() && !is_blank_char(chars[i])
                invariant
                    line == chars@,
                    start <= i <= line.len(),
                    start < line.len(),
                    !is_blank(line[start as int]),
                    forall|k: int| start <= k < i ==> !is_blank(#[trigger] line[k]),
                decreases line.len() - i,
            {
                i += 1;
            }
            proof {
                lemma_first_word(line, start as int, i as int);
                let before = spans@;
                let after = before.push((start, i));
                assert(cut(line, after) =~= cut(line, before) + seq![
                    line.subrange(start as int, i as int),
                ]);
                assert(cut(line, after) + words_of(line.skip(i as int)) =~= cut(line, before) + (
                seq![line.subrange(start as int, i as int)] + words_of(line.skip(i as int))));
            }
            spans.push((start, i));
        }
    }
    assert(cut(line, spans@) + words_of(line.skip(i as int)) =~= cut(line, spans@));
    spans
}

} // verus!
