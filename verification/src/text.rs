//! Plain operations on text: comparing, trimming, splitting, searching and writing numbers.
use vstd::prelude::*;
use vstd::string::*;
use vstd::utf8::*;

use crate::error::Error;

verus! {

// ---------------------------------------------------------------------------------------------
// Items of the standard library
// ---------------------------------------------------------------------------------------------
/// `String::push` appends one character.
pub assume_specification[ String::push ](text: &mut String, c: char)
    ensures
        final(text)@ == old(text)@.push(c),
;

/// `String::with_capacity` makes an empty text. How much room it has is not stated.
pub assume_specification[ String::with_capacity ](capacity: usize) -> (text: String)
    ensures
        text@ == Seq::<char>::empty(),
;

/// The characters that count as white space: those with the Unicode property `White_Space`.
pub open spec fn white_space(c: char) -> bool {
    let n = c as u32;
    ||| 0x09 <= n <= 0x0d
    ||| n == 0x20
    ||| n == 0x85
    ||| n == 0xa0
    ||| n == 0x1680
    ||| 0x2000 <= n <= 0x200a
    ||| n == 0x2028
    ||| n == 0x2029
    ||| n == 0x202f
    ||| n == 0x205f
    ||| n == 0x3000
}

/// `char::is_whitespace` tells the Unicode property `White_Space`, which the 25 characters of
/// `white_space` have.
pub assume_specification[ char::is_whitespace ](c: char) -> (white: bool)
    ensures
        white == white_space(c),
;

/// The control characters: the general category `Cc`.
pub open spec fn control(c: char) -> bool {
    (c as u32) < 0x20 || 0x7f <= (c as u32) <= 0x9f
}

/// `char::is_control` tells the general category `Cc`: the 65 code points below U+0020 and from
/// U+007F to U+009F.
pub assume_specification[ char::is_control ](c: char) -> (yes: bool)
    ensures
        yes == control(c),
;

/// Where a byte string that is not UTF-8 goes wrong: how many bytes are valid, and how many follow
/// that cannot be part of a character, or `None` where the input ends inside one.
pub uninterp spec fn utf8_fault(bytes: Seq<u8>) -> (usize, Option<usize>);

/// Calls `std::str::from_utf8`: the text that the bytes encode, if they are valid UTF-8. Where
/// they are not, `valid_up_to` and `error_len` of its error are only named.
#[verifier::external_body]
pub(crate) fn utf8_text(bytes: &[u8]) -> (text: Result<&str, (usize, Option<usize>)>)
    ensures
        text is Ok <==> valid_utf8(bytes@),
        text matches Ok(t) ==> encode_utf8(t@) == bytes@,
        text matches Err(fault) ==> fault == utf8_fault(bytes@),
{
    match std::str::from_utf8(bytes) {
        Ok(text) => Ok(text),
        Err(error) => Err((error.valid_up_to(), error.error_len())),
    }
}

// ---------------------------------------------------------------------------------------------
// Comparing
// ---------------------------------------------------------------------------------------------
/// Tells whether two byte strings are equal.
pub fn same_bytes(a: &[u8], b: &[u8]) -> (same: bool)
    ensures
        same == (a@ == b@),
{
    if a.len() != b.len() {
        return false;
    }
    let mut i: usize = 0;
    while i < a.len()
        invariant
            i <= a.len(),
            a.len() == b.len(),
            forall|k: int| 0 <= k < i ==> a@[k] == b@[k],
        decreases a.len() - i,
    {
        if a[i] != b[i] {
            return false;
        }
        i += 1;
    }
    assert(a@ =~= b@);
    true
}

/// Tells whether two texts are equal.
pub fn same(a: &str, b: &str) -> (same: bool)
    ensures
        same == (a@ == b@),
{
    proof {
        encode_utf8_decode_utf8(a@);
        encode_utf8_decode_utf8(b@);
    }
    same_bytes(a.as_bytes(), b.as_bytes())
}

/// `text` begins with `prefix`.
pub open spec fn has_prefix(text: Seq<char>, prefix: Seq<char>) -> bool {
    prefix.len() <= text.len() && text.subrange(0, prefix.len() as int) == prefix
}

/// `text` ends with `suffix`.
pub open spec fn has_suffix(text: Seq<char>, suffix: Seq<char>) -> bool {
    suffix.len() <= text.len() && text.subrange(text.len() - suffix.len(), text.len() as int)
        == suffix
}

/// Tells whether a text begins with another.
pub fn starts_with(text: &str, prefix: &str) -> (yes: bool)
    ensures
        yes == has_prefix(text@, prefix@),
{
    let n: usize = prefix.unicode_len();
    n <= text.unicode_len() && same(text.substring_char(0, n), prefix)
}

/// What follows `prefix` in a text that begins with it.
pub fn strip_prefix<'a>(text: &'a str, prefix: &str) -> (rest: Option<&'a str>)
    ensures
        rest is Some <==> has_prefix(text@, prefix@),
        rest matches Some(r) ==> r@ == text@.skip(prefix@.len() as int),
{
    let n: usize = prefix.unicode_len();
    let len: usize = text.unicode_len();
    if n <= len && same(text.substring_char(0, n), prefix) {
        let rest = text.substring_char(n, len);
        assert(rest@ =~= text@.skip(n as int));
        Some(rest)
    } else {
        None
    }
}

/// What precedes `suffix` in a text that ends with it.
pub fn strip_suffix<'a>(text: &'a str, suffix: &str) -> (rest: Option<&'a str>)
    ensures
        rest is Some <==> has_suffix(text@, suffix@),
        rest matches Some(r) ==> r@ == text@.take(text@.len() - suffix@.len()),
{
    let n: usize = suffix.unicode_len();
    let len: usize = text.unicode_len();
    if n <= len && same(text.substring_char(len - n, len), suffix) {
        let rest = text.substring_char(0, len - n);
        assert(rest@ =~= text@.take(text@.len() - suffix@.len()));
        Some(rest)
    } else {
        None
    }
}

/// `pattern` occurs in `text` at position `at`.
pub open spec fn occurs_at(text: Seq<char>, pattern: Seq<char>, at: int) -> bool {
    0 <= at && at + pattern.len() <= text.len() && text.subrange(at, at + pattern.len()) == pattern
}

/// `pattern` occurs somewhere in `text`.
pub open spec fn occurs(text: Seq<char>, pattern: Seq<char>) -> bool {
    exists|at: int| occurs_at(text, pattern, at)
}

/// Tells whether a text holds another.
pub fn contains(text: &str, pattern: &str) -> (yes: bool)
    ensures
        yes == occurs(text@, pattern@),
{
    let n: usize = pattern.unicode_len();
    let len: usize = text.unicode_len();
    if n > len {
        return false;
    }
    let mut at: usize = 0;
    while at <= len - n
        invariant
            n == pattern@.len(),
            len == text@.len(),
            n <= len,
            at <= len - n + 1,
            forall|k: int| 0 <= k < at ==> !occurs_at(text@, pattern@, k),
        decreases len - n + 1 - at,
    {
        if same(text.substring_char(at, at + n), pattern) {
            assert(occurs_at(text@, pattern@, at as int));
            return true;
        }
        if at == len - n {
            assert forall|k: int| !occurs_at(text@, pattern@, k) by {}
            return false;
        }
        at += 1;
    }
    false
}

// ---------------------------------------------------------------------------------------------
// White space
// ---------------------------------------------------------------------------------------------
/// The number of leading white space characters.
pub open spec fn leading_white(text: Seq<char>) -> nat
    decreases text.len(),
{
    if text.len() == 0 || !white_space(text[0]) {
        0
    } else {
        1 + leading_white(text.skip(1))
    }
}

/// The number of leading characters that are no white space.
pub open spec fn leading_black(text: Seq<char>) -> nat
    decreases text.len(),
{
    if text.len() == 0 || white_space(text[0]) {
        0
    } else {
        1 + leading_black(text.skip(1))
    }
}

/// The text without its trailing white space.
pub open spec fn trimmed_end(text: Seq<char>) -> Seq<char>
    decreases text.len(),
{
    if text.len() == 0 || !white_space(text.last()) {
        text
    } else {
        trimmed_end(text.drop_last())
    }
}

/// The text without leading and trailing white space.
pub open spec fn trimmed(text: Seq<char>) -> Seq<char> {
    trimmed_end(text.skip(leading_white(text) as int))
}

/// The words of a text: its longest runs of characters that are no white space, in order.
pub open spec fn words_of(text: Seq<char>) -> Seq<Seq<char>>
    decreases text.len(),
{
    let start = leading_white(text);
    if start >= text.len() {
        Seq::empty()
    } else {
        let rest = text.skip(start as int);
        let n = leading_black(rest);
        if n == 0 || n > rest.len() {
            Seq::empty()
        } else {
            seq![rest.take(n as int)] + words_of(rest.skip(n as int))
        }
    }
}

proof fn lemma_leading_white(text: Seq<char>)
    ensures
        leading_white(text) <= text.len(),
        forall|k: int| 0 <= k < leading_white(text) ==> white_space(#[trigger] text[k]),
        leading_white(text) < text.len() ==> !white_space(text[leading_white(text) as int]),
    decreases text.len(),
{
    if text.len() != 0 && white_space(text[0]) {
        let rest = text.skip(1);
        lemma_leading_white(rest);
        assert forall|k: int| 0 <= k < leading_white(text) implies white_space(
            #[trigger] text[k],
        ) by {
            if k > 0 {
                assert(rest[k - 1] == text[k]);
            }
        }
    }
}

proof fn lemma_leading_black(text: Seq<char>)
    ensures
        leading_black(text) <= text.len(),
        forall|k: int| 0 <= k < leading_black(text) ==> !white_space(#[trigger] text[k]),
        leading_black(text) < text.len() ==> white_space(text[leading_black(text) as int]),
    decreases text.len(),
{
    if text.len() != 0 && !white_space(text[0]) {
        let rest = text.skip(1);
        lemma_leading_black(rest);
        assert forall|k: int| 0 <= k < leading_black(text) implies !white_space(
            #[trigger] text[k],
        ) by {
            if k > 0 {
                assert(rest[k - 1] == text[k]);
            }
        }
    }
}

/// A run of `n` leading white space characters that ends there is the whole run.
proof fn lemma_leading_white_is(text: Seq<char>, n: nat)
    requires
        n <= text.len(),
        forall|k: int| 0 <= k < n ==> white_space(#[trigger] text[k]),
        n < text.len() ==> !white_space(text[n as int]),
    ensures
        leading_white(text) == n,
{
    lemma_leading_white(text);
    let m = leading_white(text);
    if m < n {
        assert(white_space(text[m as int]));
    }
    if n < m {
        assert(white_space(text[n as int]));
    }
}

proof fn lemma_leading_black_is(text: Seq<char>, n: nat)
    requires
        n <= text.len(),
        forall|k: int| 0 <= k < n ==> !white_space(#[trigger] text[k]),
        n < text.len() ==> white_space(text[n as int]),
    ensures
        leading_black(text) == n,
{
    lemma_leading_black(text);
    let m = leading_black(text);
    if m < n {
        assert(!white_space(text[m as int]));
    }
    if n < m {
        assert(!white_space(text[n as int]));
    }
}

proof fn lemma_trimmed_end_is(text: Seq<char>, n: nat)
    requires
        n <= text.len(),
        forall|k: int| n <= k < text.len() ==> white_space(#[trigger] text[k]),
        n > 0 ==> !white_space(text[n - 1]),
    ensures
        trimmed_end(text) == text.take(n as int),
    decreases text.len(),
{
    if n == text.len() {
        assert(text.take(n as int) =~= text);
    } else {
        assert(white_space(text[text.len() - 1]));
        lemma_trimmed_end_is(text.drop_last(), n);
        assert(text.drop_last().take(n as int) =~= text.take(n as int));
    }
}

/// The text without leading and trailing white space.
pub fn trim(text: &str) -> (rest: &str)
    ensures
        rest@ == trimmed(text@),
{
    let mut len: usize = 0;
    let mut start: usize = 0;
    let mut end: usize = 0;
    let mut black: bool = false;
    let total: usize = text.unicode_len();
    for c in it: text.chars()
        invariant
            it.seq() == text@,
            total == text@.len(),
            len == it.index(),
            start <= end <= len,
            !black ==> start == 0 && end == 0 && forall|k: int|
                0 <= k < len ==> white_space(#[trigger] text@[k]),
            black ==> start < end && !white_space(text@[start as int]) && !white_space(text@[end - 1])
                && (forall|k: int| 0 <= k < start ==> white_space(#[trigger] text@[k])) && (forall|
                k: int,
            |
                end <= k < len ==> white_space(#[trigger] text@[k])),
    {
        if !c.is_whitespace() {
            if !black {
                black = true;
                start = len;
            }
            end = len + 1;
        }
        len += 1;
    }
    if !black {
        proof {
            lemma_leading_white_is(text@, text@.len());
            assert(text@.skip(text@.len() as int) =~= Seq::<char>::empty());
            assert(text@.subrange(0, 0) =~= Seq::<char>::empty());
        }
        text.substring_char(0, 0)
    } else {
        proof {
            lemma_leading_white_is(text@, start as nat);
            let rest = text@.skip(start as int);
            lemma_trimmed_end_is(rest, (end - start) as nat);
            assert(rest.take(end - start) =~= text@.subrange(start as int, end as int));
        }
        text.substring_char(start, end)
    }
}

proof fn lemma_words_skip(c: char, rest: Seq<char>)
    requires
        white_space(c),
    ensures
        words_of(seq![c] + rest) == words_of(rest),
{
    let text = seq![c] + rest;
    lemma_leading_white(rest);
    let n = leading_white(rest);
    assert(text.skip(1) =~= rest);
    assert(text.skip((n + 1) as int) =~= rest.skip(n as int));
}

proof fn lemma_words_first(word: Seq<char>, rest: Seq<char>)
    requires
        word.len() > 0,
        forall|i: int| 0 <= i < word.len() ==> !white_space(#[trigger] word[i]),
        rest.len() > 0 ==> white_space(rest[0]),
    ensures
        words_of(word + rest) == seq![word] + words_of(rest),
{
    let text = word + rest;
    assert(text[0] == word[0]);
    lemma_leading_white_is(text, 0);
    assert(text.skip(0) =~= text);
    assert forall|k: int| 0 <= k < word.len() implies !white_space(#[trigger] text[k]) by {
        assert(text[k] == word[k]);
    }
    lemma_leading_black_is(text, word.len());
    assert(text.take(word.len() as int) =~= word);
    assert(text.skip(word.len() as int) =~= rest);
}

/// The views of some strings.
pub open spec fn string_views(strings: Seq<String>) -> Seq<Seq<char>> {
    strings.map_values(|s: String| s@)
}

/// Splits a text into its words.
pub fn words(text: &str) -> (list: Vec<String>)
    ensures
        string_views(list@) == words_of(text@),
{
    let mut list: Vec<String> = Vec::new();
    let mut word = String::new();
    let mut n: usize = 0;
    let total: usize = text.unicode_len();
    assert(string_views(list@) + words_of(word@ + text@.skip(0)) =~= words_of(text@)) by {
        assert(word@ + text@.skip(0) =~= text@);
    }
    for c in it: text.chars()
        invariant
            it.seq() == text@,
            n == it.index(),
            total == text@.len(),
            forall|i: int| 0 <= i < word@.len() ==> !white_space(#[trigger] word@[i]),
            string_views(list@) + words_of(word@ + text@.skip(n as int)) == words_of(text@),
    {
        let ghost rest = text@.skip(n + 1);
        assert(text@.skip(n as int) =~= seq![c] + rest);
        if c.is_whitespace() {
            proof {
                lemma_words_skip(c, rest);
            }
            if word.as_str().is_empty() {
                assert(word@ + text@.skip(n as int) =~= seq![c] + rest);
                assert(word@ + rest =~= rest);
            } else {
                proof {
                    lemma_words_first(word@, seq![c] + rest);
                }
                let ghost before = list@;
                let ghost done = word@;
                list.push(word);
                word = String::new();
                assert(string_views(list@) =~= string_views(before).push(done));
                assert(word@ + rest =~= rest);
                assert(string_views(list@) + words_of(rest) =~= string_views(before) + (seq![done]
                    + words_of(rest)));
            }
        } else {
            let ghost before = word@;
            word.push(c);
            assert(word@ + rest =~= before + (seq![c] + rest));
        }
        n += 1;
    }
    assert(text@.skip(n as int) =~= Seq::empty());
    if !word.as_str().is_empty() {
        proof {
            lemma_words_first(word@, Seq::empty());
            assert(words_of(Seq::empty()) =~= Seq::empty());
            assert(string_views(list@) + words_of(word@ + text@.skip(n as int))
                =~= string_views(list@).push(word@));
        }
        let ghost before = list@;
        let ghost last = word@;
        list.push(word);
        assert(string_views(list@) =~= string_views(before).push(last));
    } else {
        assert(word@ + text@.skip(n as int) =~= Seq::empty());
        assert(words_of(Seq::empty()) =~= Seq::empty());
        assert(string_views(list@) + words_of(Seq::empty()) =~= string_views(list@));
    }
    list
}

/// The first word of a text.
pub fn first_word(text: &str) -> (word: Option<&str>)
    ensures
        match word {
            Some(w) => words_of(text@).len() > 0 && w@ == words_of(text@)[0],
            None => words_of(text@).len() == 0,
        },
{
    let total: usize = text.unicode_len();
    let mut n: usize = 0;
    let mut start: usize = 0;
    let mut end: usize = total;
    let mut inside: bool = false;
    let mut over: bool = false;
    for c in it: text.chars()
        invariant
            it.seq() == text@,
            n == it.index(),
            total == text@.len(),
            !inside ==> !over && end == total && forall|k: int|
                0 <= k < n ==> white_space(#[trigger] text@[k]),
            inside ==> start < n && (forall|k: int|
                0 <= k < start ==> white_space(#[trigger] text@[k])),
            inside && !over ==> end == total && (forall|k: int|
                start <= k < n ==> !white_space(#[trigger] text@[k])),
            over ==> inside && start < end < n && white_space(text@[end as int]) && (forall|k: int|
                start <= k < end ==> !white_space(#[trigger] text@[k])),
    {
        if c.is_whitespace() {
            if inside && !over {
                over = true;
                end = n;
            }
        } else if !inside {
            inside = true;
            start = n;
        }
        n += 1;
    }
    if !inside {
        proof {
            lemma_leading_white_is(text@, text@.len());
        }
        return None;
    }
    proof {
        lemma_leading_white_is(text@, start as nat);
        let rest = text@.skip(start as int);
        lemma_leading_black_is(rest, (end - start) as nat);
        assert(rest.take(end - start) =~= text@.subrange(start as int, end as int));
    }
    Some(text.substring_char(start, end))
}

// ---------------------------------------------------------------------------------------------
// Lines
// ---------------------------------------------------------------------------------------------
/// The text without the line ends behind it.
pub open spec fn without_line_end(text: Seq<char>) -> Seq<char>
    decreases text.len(),
{
    if text.len() > 0 && (text.last() == '\r' || text.last() == '\n') {
        without_line_end(text.drop_last())
    } else {
        text
    }
}

proof fn lemma_without_line_end_is(text: Seq<char>, n: nat)
    requires
        n <= text.len(),
        forall|k: int| n <= k < text.len() ==> (#[trigger] text[k] == '\r' || text[k] == '\n'),
        n > 0 ==> text[n - 1] != '\r' && text[n - 1] != '\n',
    ensures
        without_line_end(text) == text.take(n as int),
    decreases text.len(),
{
    if n == text.len() {
        assert(text.take(n as int) =~= text);
    } else {
        assert(text[text.len() - 1] == '\r' || text[text.len() - 1] == '\n');
        lemma_without_line_end_is(text.drop_last(), n);
        assert(text.drop_last().take(n as int) =~= text.take(n as int));
    }
}

/// The text without the line ends behind it.
pub fn trim_line_end(text: &str) -> (rest: &str)
    ensures
        rest@ == without_line_end(text@),
{
    let total: usize = text.unicode_len();
    let mut n: usize = 0;
    let mut end: usize = 0;
    for c in it: text.chars()
        invariant
            it.seq() == text@,
            n == it.index(),
            total == text@.len(),
            end <= n,
            end > 0 ==> text@[end - 1] != '\r' && text@[end - 1] != '\n',
            forall|k: int| end <= k < n ==> (#[trigger] text@[k] == '\r' || text@[k] == '\n'),
    {
        n += 1;
        if c != '\r' && c != '\n' {
            end = n;
        }
    }
    proof {
        lemma_without_line_end_is(text@, end as nat);
        assert(text@.subrange(0, end as int) =~= text@.take(end as int));
    }
    text.substring_char(0, end)
}

// ---------------------------------------------------------------------------------------------
// Numbers
// ---------------------------------------------------------------------------------------------
/// The character of a decimal digit.
pub open spec fn digit_char(digit: nat) -> char {
    ((0x30 + digit) as u32) as char
}

/// A number in decimal, without leading zeros.
pub open spec fn number_text(n: nat) -> Seq<char>
    decreases n,
{
    if n < 10 {
        seq![digit_char(n)]
    } else {
        number_text(n / 10).push(digit_char(n % 10))
    }
}

/// The character of a decimal digit.
fn digit(n: u8) -> (c: char)
    requires
        n < 10,
    ensures
        c == digit_char(n as nat),
{
    (0x30 + n) as char
}

/// Writes a number in decimal.
pub fn decimal(n: u128) -> (text: String)
    ensures
        text@ == number_text(n as nat),
    decreases n,
{
    if n < 10 {
        let mut text = String::new();
        text.push(digit(n as u8));
        assert(text@ =~= seq![digit_char(n as nat)]);
        text
    } else {
        let mut text = decimal(n / 10);
        text.push(digit((n % 10) as u8));
        text
    }
}

/// The character of a hexadecimal digit.
pub open spec fn hex_char(digit: nat) -> char {
    if digit < 10 {
        ((0x30 + digit) as u32) as char
    } else {
        ((0x57 + digit) as u32) as char
    }
}

/// The last digits of a number in hexadecimal, with leading zeros.
pub open spec fn hex_text(n: nat, digits: nat) -> Seq<char>
    decreases digits,
{
    if digits == 0 {
        Seq::empty()
    } else {
        hex_text(n / 16, (digits - 1) as nat).push(hex_char(n % 16))
    }
}

/// Writes the last digits of a number in hexadecimal.
pub fn hexadecimal(n: u64, digits: u8) -> (text: String)
    ensures
        text@ == hex_text(n as nat, digits as nat),
    decreases digits,
{
    if digits == 0 {
        return String::new();
    }
    let mut text = hexadecimal(n / 16, digits - 1);
    let digit: u8 = (n % 16) as u8;
    text.push(
        if digit < 10 {
            (0x30 + digit) as char
        } else {
            (0x57 + digit) as char
        },
    );
    text
}

/// An ASCII digit.
pub open spec fn is_digit(c: char) -> bool {
    '0' <= c <= '9'
}

/// The number of leading digits.
pub open spec fn leading_digits(text: Seq<char>) -> nat
    decreases text.len(),
{
    if text.len() == 0 || !is_digit(text[0]) {
        0
    } else {
        1 + leading_digits(text.skip(1))
    }
}

/// The number that some digits write.
pub open spec fn digits_value(digits: Seq<char>) -> nat
    decreases digits.len(),
{
    if digits.len() == 0 {
        0
    } else {
        10 * digits_value(digits.drop_last()) + ((digits.last() as u32) - 0x30) as nat
    }
}

/// All characters are digits.
pub open spec fn all_digits(text: Seq<char>) -> bool {
    forall|i: int| 0 <= i < text.len() ==> is_digit(#[trigger] text[i])
}

/// The text after one leading plus sign.
pub open spec fn unsigned_part(text: Seq<char>) -> Seq<char> {
    if text.len() > 0 && text[0] == '+' {
        text.skip(1)
    } else {
        text
    }
}

/// The number that a text writes in decimal, up to a largest one, or what is wrong with the text:
/// whatever comes first, from left to right.
pub open spec fn number_of(text: Seq<char>, max: u64) -> Result<u64, Error> {
    let digits = unsigned_part(text);
    let n = leading_digits(digits);
    let value = digits_value(digits.take(n as int));
    if text.len() == 0 {
        Err(Error::NumberEmpty)
    } else if value > max {
        Err(Error::NumberTooLarge)
    } else if n < digits.len() || n == 0 {
        Err(Error::NumberDigit)
    } else {
        Ok(value as u64)
    }
}

pub proof fn lemma_leading_digits(text: Seq<char>)
    ensures
        leading_digits(text) <= text.len(),
        forall|k: int| 0 <= k < leading_digits(text) ==> is_digit(#[trigger] text[k]),
        leading_digits(text) < text.len() ==> !is_digit(text[leading_digits(text) as int]),
    decreases text.len(),
{
    if text.len() != 0 && is_digit(text[0]) {
        let rest = text.skip(1);
        lemma_leading_digits(rest);
        assert forall|k: int| 0 <= k < leading_digits(text) implies is_digit(
            #[trigger] text[k],
        ) by {
            if k > 0 {
                assert(rest[k - 1] == text[k]);
            }
        }
    }
}

/// A run of `n` leading digits that ends there is the whole run.
pub proof fn lemma_leading_digits_is(text: Seq<char>, n: nat)
    requires
        n <= text.len(),
        forall|k: int| 0 <= k < n ==> is_digit(#[trigger] text[k]),
        n < text.len() ==> !is_digit(text[n as int]),
    ensures
        leading_digits(text) == n,
{
    lemma_leading_digits(text);
    let m = leading_digits(text);
    if m < n {
        assert(is_digit(text[m as int]));
    }
    if n < m {
        assert(is_digit(text[n as int]));
    }
}

/// Fewer digits write a number that is no larger.
proof fn lemma_digits_prefix(digits: Seq<char>, n: int)
    requires
        0 <= n <= digits.len(),
    ensures
        digits_value(digits.take(n)) <= digits_value(digits),
    decreases digits.len(),
{
    if n == digits.len() {
        assert(digits.take(n) =~= digits);
    } else {
        lemma_digits_prefix(digits.drop_last(), n);
        assert(digits.drop_last().take(n) =~= digits.take(n));
    }
}

/// Reads a number in decimal, up to a largest one.
pub fn parse_number(text: &str, max: u64) -> (number: Result<u64, Error>)
    ensures
        number == number_of(text@, max),
{
    let len: usize = text.unicode_len();
    if len == 0 {
        return Err(Error::NumberEmpty);
    }
    let signed: bool = starts_with(text, "+");
    let mut value: u64 = 0;
    let mut n: usize = 0;
    let mut at: usize = 0;
    let ghost digits = unsigned_part(text@);
    proof {
        reveal_strlit("+");
        assert("+"@ =~= seq!['+']);
        assert(signed == (text@[0] == '+')) by {
            if text@[0] == '+' {
                assert(text@.subrange(0, 1) =~= seq!['+']);
            } else {
                assert(text@.subrange(0, 1)[0] == text@[0]);
            }
        }
        assert(digits.take(0) =~= Seq::empty());
    }
    for c in it: text.chars()
        invariant
            it.seq() == text@,
            at == it.index(),
            len == text@.len(),
            len > 0,
            signed == (text@[0] == '+'),
            digits == unsigned_part(text@),
            signed ==> n == if at == 0 {
                0
            } else {
                at - 1
            },
            !signed ==> n == at,
            value == digits_value(digits.take(n as int)),
            value <= max,
            n <= digits.len(),
            forall|k: int| 0 <= k < n ==> is_digit(#[trigger] digits[k]),
    {
        if at > 0 || !signed {
            assert(c == digits[n as int]);
            if !('0' <= c && c <= '9') {
                proof {
                    lemma_leading_digits_is(digits, n as nat);
                }
                return Err(Error::NumberDigit);
            }
            let digit: u64 = (c as u32 - 0x30) as u64;
            proof {
                assert(digits.take(n + 1).drop_last() =~= digits.take(n as int));
                lemma_leading_digits(digits);
                if leading_digits(digits) <= n {
                    assert(is_digit(digits[n as int]));
                }
                assert(digits.take(leading_digits(digits) as int).take(n + 1) =~= digits.take(
                    n + 1,
                ));
                lemma_digits_prefix(digits.take(leading_digits(digits) as int), n + 1);
            }
            if digit > max || value > (max - digit) / 10 {
                return Err(Error::NumberTooLarge);
            }
            value = 10 * value + digit;
            n += 1;
        }
        at += 1;
    }
    proof {
        lemma_leading_digits_is(digits, n as nat);
    }
    if n == 0 {
        return Err(Error::NumberDigit);
    }
    Ok(value)
}

/// The digits of a number write the number.
pub proof fn lemma_number_text(n: nat)
    ensures
        digits_value(number_text(n)) == n,
        all_digits(number_text(n)),
        number_text(n).len() > 0,
    decreases n,
{
    let text = number_text(n);
    if n < 10 {
        assert(text.drop_last() =~= Seq::empty());
        assert(digits_value(text.drop_last()) == 0);
    } else {
        lemma_number_text(n / 10);
        let front = number_text(n / 10);
        assert(text.drop_last() =~= front);
        assert forall|i: int| 0 <= i < text.len() implies is_digit(#[trigger] text[i]) by {
            if i < front.len() {
                assert(text[i] == front[i]);
            }
        }
    }
}

/// Reading a number that was written gives the number back.
pub proof fn number_round_trip(n: u64, max: u64)
    requires
        n <= max,
    ensures
        number_of(number_text(n as nat), max) == Ok::<u64, Error>(n),
{
    let text = number_text(n as nat);
    lemma_number_text(n as nat);
    assert(is_digit(text[0]));
    lemma_leading_digits_is(text, text.len());
    assert(text.take(text.len() as int) =~= text);
}

proof fn lemma_trimmed_end(text: Seq<char>)
    ensures
        trimmed_end(text).len() <= text.len(),
        trimmed_end(text) == text.take(trimmed_end(text).len() as int),
        forall|i: int|
            trimmed_end(text).len() <= i < text.len() ==> white_space(#[trigger] text[i]),
        trimmed_end(text).len() > 0 ==> !white_space(trimmed_end(text).last()),
    decreases text.len(),
{
    if text.len() == 0 || !white_space(text.last()) {
        assert(text.take(text.len() as int) =~= text);
    } else {
        let front = text.drop_last();
        lemma_trimmed_end(front);
        let n = trimmed_end(text).len() as int;
        assert(front.take(n) =~= text.take(n));
        assert forall|i: int| n <= i < text.len() implies white_space(#[trigger] text[i]) by {
            if i < front.len() {
                assert(front[i] == text[i]);
            }
        }
    }
}

/// A part of a text, between white space only, that has no white space at its ends.
pub open spec fn core_at(text: Seq<char>, part: Seq<char>, front: int) -> bool {
    &&& 0 <= front <= front + part.len() <= text.len()
    &&& part == text.subrange(front, front + part.len())
    &&& forall|i: int| 0 <= i < front ==> white_space(#[trigger] text[i])
    &&& forall|i: int| front + part.len() <= i < text.len() ==> white_space(#[trigger] text[i])
    &&& part.len() > 0 ==> !white_space(part[0]) && !white_space(part.last())
}

/// Trimming takes off all the white space at both ends, and nothing else.
pub proof fn trimming_takes_off_white_space(text: Seq<char>)
    ensures
        exists|front: int| core_at(text, trimmed(text), front),
{
    lemma_leading_white(text);
    let front = leading_white(text) as int;
    let tail = text.skip(front);
    lemma_trimmed_end(tail);
    let rest = trimmed(text);
    assert(rest =~= text.subrange(front, front + rest.len()));
    assert forall|i: int| front + rest.len() <= i < text.len() implies white_space(
        #[trigger] text[i],
    ) by {
        assert(tail[i - front] == text[i]);
    }
    if rest.len() > 0 {
        assert(rest[0] == text[front]);
    }
    assert(core_at(text, rest, front));
}

/// The words of a text have no white space and are not empty, and together they are all that is no
/// white space in the text, in order.
pub proof fn words_are_what_is_not_white(text: Seq<char>)
    ensures
        forall|i: int| 0 <= i < words_of(text).len() ==> (#[trigger] words_of(text)[i]).len() > 0,
        words_of(text).flatten() == text.filter(|c: char| !white_space(c)),
    decreases text.len(),
{
    let black = |c: char| !white_space(c);
    let start = leading_white(text);
    lemma_leading_white(text);
    let rest = text.skip(start as int);
    lemma_filter_none(text.take(start as int), black);
    assert(text =~= text.take(start as int) + rest);
    lemma_filter_concat(text.take(start as int), rest, black);
    if start >= text.len() {
        assert(rest =~= Seq::empty());
        lemma_filter_none(rest, black);
        assert(words_of(text) =~= Seq::empty());
        reveal(Seq::flatten);
    } else {
        let n = leading_black(rest);
        lemma_leading_black(rest);
        assert(rest[0] == text[start as int]);
        let word = rest.take(n as int);
        let more = rest.skip(n as int);
        assert(rest =~= word + more);
        lemma_filter_all(word, black);
        lemma_filter_concat(word, more, black);
        words_are_what_is_not_white(more);
        let words = words_of(text);
        assert(words =~= seq![word] + words_of(more));
        assert forall|i: int| 0 <= i < words.len() implies (#[trigger] words[i]).len() > 0 by {
            if i > 0 {
                assert(words[i] == words_of(more)[i - 1]);
            }
        }
        assert(words.first() == word);
        assert(words.drop_first() =~= words_of(more));
    }
}

proof fn lemma_filter_none(text: Seq<char>, keep: spec_fn(char) -> bool)
    requires
        forall|i: int| 0 <= i < text.len() ==> !keep(#[trigger] text[i]),
    ensures
        text.filter(keep) == Seq::<char>::empty(),
    decreases text.len(),
{
    reveal(Seq::filter);
    if text.len() > 0 {
        assert(!keep(text[text.len() - 1]));
        let front = text.drop_last();
        assert forall|i: int| 0 <= i < front.len() implies !keep(#[trigger] front[i]) by {
            assert(front[i] == text[i]);
        }
        lemma_filter_none(front, keep);
    } else {
        assert(text =~= Seq::empty());
    }
}

proof fn lemma_filter_all(text: Seq<char>, keep: spec_fn(char) -> bool)
    requires
        forall|i: int| 0 <= i < text.len() ==> keep(#[trigger] text[i]),
    ensures
        text.filter(keep) == text,
    decreases text.len(),
{
    reveal(Seq::filter);
    if text.len() > 0 {
        assert(keep(text[text.len() - 1]));
        let front = text.drop_last();
        assert forall|i: int| 0 <= i < front.len() implies keep(#[trigger] front[i]) by {
            assert(front[i] == text[i]);
        }
        lemma_filter_all(front, keep);
        assert(front.push(text.last()) =~= text);
    }
}

proof fn lemma_filter_concat(a: Seq<char>, b: Seq<char>, keep: spec_fn(char) -> bool)
    ensures
        (a + b).filter(keep) == a.filter(keep) + b.filter(keep),
    decreases b.len(),
{
    reveal(Seq::filter);
    if b.len() == 0 {
        assert(a + b =~= a);
        assert(a.filter(keep) + b.filter(keep) =~= a.filter(keep));
    } else {
        assert((a + b).drop_last() =~= a + b.drop_last());
        lemma_filter_concat(a, b.drop_last(), keep);
        assert((a + b).filter(keep) =~= a.filter(keep) + b.filter(keep));
    }
}

/// A line without its end: only carriage returns and line feeds are taken off, and all of them.
pub proof fn line_ends_are_taken_off(text: Seq<char>)
    ensures
        ({
            let line = without_line_end(text);
            &&& line.len() <= text.len()
            &&& line == text.take(line.len() as int)
            &&& line.len() > 0 ==> line.last() != '\r' && line.last() != '\n'
            &&& forall|i: int|
                line.len() <= i < text.len() ==> (#[trigger] text[i] == '\r' || text[i] == '\n')
        }),
    decreases text.len(),
{
    if text.len() > 0 && (text.last() == '\r' || text.last() == '\n') {
        let front = text.drop_last();
        line_ends_are_taken_off(front);
        let n = without_line_end(text).len() as int;
        assert(front.take(n) =~= text.take(n));
        assert forall|i: int| n <= i < text.len() implies (#[trigger] text[i] == '\r' || text[i]
            == '\n') by {
            if i < front.len() {
                assert(front[i] == text[i]);
            }
        }
    } else {
        assert(text.take(text.len() as int) =~= text);
    }
}

/// A number that is read is written in digits, behind at most one plus sign, and one more digit
/// makes it ten times as large, and as much more as the digit says.
pub proof fn digits_count_tenfold(text: Seq<char>, c: char, max: u64, n: u64)
    requires
        number_of(text, max) == Ok::<u64, Error>(n),
        '0' <= c <= '9',
        10 * n + (c as u32 - 0x30) <= max,
    ensures
        number_of(text.push(c), max) == Ok::<u64, Error>((10 * n + (c as u32 - 0x30)) as u64),
        number_of(seq![c], max) == Ok::<u64, Error>((c as u32 - 0x30) as u64) || c as u32 - 0x30
            > max,
{
    let digits = unsigned_part(text);
    lemma_leading_digits(digits);
    let longer = unsigned_part(text.push(c));
    assert(longer =~= digits.push(c));
    assert forall|k: int| 0 <= k < longer.len() implies is_digit(#[trigger] longer[k]) by {
        if k < digits.len() {
            assert(longer[k] == digits[k]);
        }
    }
    lemma_leading_digits_is(longer, longer.len());
    assert(longer.take(longer.len() as int) =~= longer);
    assert(longer.drop_last() =~= digits);
    assert(digits.take(digits.len() as int) =~= digits);
    let one = seq![c];
    assert(unsigned_part(one) =~= one);
    lemma_leading_digits_is(one, 1);
    assert(one.take(1) =~= one);
    assert(digits_value(one.drop_last()) == 0);
}

/// A word reaches to the next white space, and white space before a word makes no difference.
pub proof fn words_reach_to_the_next_white_space(word: Seq<char>, rest: Seq<char>, c: char)
    requires
        word.len() > 0,
        forall|i: int| 0 <= i < word.len() ==> !white_space(#[trigger] word[i]),
        rest.len() > 0 ==> white_space(rest[0]),
        white_space(c),
    ensures
        words_of(word + rest) == seq![word] + words_of(rest),
        words_of(seq![c] + rest) == words_of(rest),
{
    lemma_words_first(word, rest);
    lemma_words_skip(c, rest);
}

} // verus!
