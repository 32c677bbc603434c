//! Text as sequences of characters: whitespace, trimming, searching, replacing and numerals.

use vstd::prelude::*;
use vstd::string::*;

verus! {

/// `String::push` of the standard library: appends one character to the end.
pub assume_specification[ String::push ](s: &mut String, c: char)
    ensures
        final(s)@ == old(s)@.push(c),
;

/// The characters that have Unicode's `White_Space` property.
pub open spec fn is_space(c: char) -> bool {
    ||| '\u{0009}' <= c <= '\u{000d}'
    ||| c == '\u{0020}'
    ||| c == '\u{0085}'
    ||| c == '\u{00a0}'
    ||| c == '\u{1680}'
    ||| '\u{2000}' <= c <= '\u{200a}'
    ||| c == '\u{2028}'
    ||| c == '\u{2029}'
    ||| c == '\u{202f}'
    ||| c == '\u{205f}'
    ||| c == '\u{3000}'
}

/// Whether `c` is a whitespace character.
pub fn is_whitespace(c: char) -> (r: bool)
    ensures
        r == is_space(c),
{
    ('\u{0009}' <= c && c <= '\u{000d}') || c == '\u{0020}' || c == '\u{0085}' || c == '\u{00a0}'
        || c == '\u{1680}' || ('\u{2000}' <= c && c <= '\u{200a}') || c == '\u{2028}' || c
        == '\u{2029}' || c == '\u{202f}' || c == '\u{205f}' || c == '\u{3000}'
}

/// `s` without its leading whitespace.
pub open spec fn trimmed_start(s: Seq<char>) -> Seq<char>
    decreases s.len(),
{
    if s.len() > 0 && is_space(s[0]) {
        trimmed_start(s.drop_first())
    } else {
        s
    }
}

/// `s` without its trailing whitespace.
pub open spec fn trimmed_end(s: Seq<char>) -> Seq<char>
    decreases s.len(),
{
    if s.len() > 0 && is_space(s.last()) {
        trimmed_end(s.drop_last())
    } else {
        s
    }
}

/// `s` without leading and trailing whitespace.
pub open spec fn trimmed(s: Seq<char>) -> Seq<char> {
    trimmed_end(trimmed_start(s))
}

/// Whether `s` holds nothing but whitespace.
pub open spec fn is_blank(s: Seq<char>) -> bool {
    forall|i: int| 0 <= i < s.len() ==> is_space(#[trigger] s[i])
}

/// The characters of `s`.
pub fn chars_of(s: &str) -> (v: Vec<char>)
    ensures
        v@ == s@,
{
    let mut v: Vec<char> = Vec::new();
    for c in it: s.chars()
        invariant
            v@ == it.seq().take(it.index()),
    {
        v.push(c);
    }
    v
}

/// Whether `a` and `b` hold the same characters.
pub fn same_text(a: &str, b: &str) -> (r: bool)
    ensures
        r == (a@ == b@),
{
    a.to_owned() == b.to_owned()
}

/// Trimming whitespace at the start takes it away one character at a time.
proof fn lemma_trimmed_start_step(s: Seq<char>, i: int)
    requires
        0 <= i < s.len(),
        is_space(s[i]),
    ensures
        trimmed_start(s.subrange(i, s.len() as int)) == trimmed_start(
            s.subrange(i + 1, s.len() as int),
        ),
{
    assert(s.subrange(i, s.len() as int).drop_first() =~= s.subrange(i + 1, s.len() as int));
}

/// Trimming whitespace at the end takes it away one character at a time.
proof fn lemma_trimmed_end_step(s: Seq<char>, j: int)
    requires
        0 < j <= s.len(),
        is_space(s[j - 1]),
    ensures
        trimmed_end(s.subrange(0, j)) == trimmed_end(s.subrange(0, j - 1)),
{
    assert(s.subrange(0, j).drop_last() =~= s.subrange(0, j - 1));
}

/// `s` without its leading whitespace.
pub fn trim_start(s: &str) -> (r: &str)
    ensures
        r@ == trimmed_start(s@),
{
    let v: Vec<char> = chars_of(s);
    let n: usize = v.len();
    let mut i: usize = 0;
    assert(s@.subrange(0, s@.len() as int) =~= s@);
    while i < n && is_whitespace(v[i])
        invariant
            v@ == s@,
            n == v@.len(),
            i <= n,
            trimmed_start(s@) == trimmed_start(s@.subrange(i as int, s@.len() as int)),
        decreases n - i,
    {
        proof {
            lemma_trimmed_start_step(s@, i as int);
        }
        i += 1;
    }
    s.substring_char(i, n)
}

/// `s` without its trailing whitespace.
pub fn trim_end(s: &str) -> (r: &str)
    ensures
        r@ == trimmed_end(s@),
{
    let v: Vec<char> = chars_of(s);
    let mut j: usize = v.len();
    assert(s@.subrange(0, s@.len() as int) =~= s@);
    while j > 0 && is_whitespace(v[j - 1])
        invariant
            v@ == s@,
            j <= v@.len(),
            trimmed_end(s@) == trimmed_end(s@.subrange(0, j as int)),
        decreases j,
    {
        proof {
            lemma_trimmed_end_step(s@, j as int);
        }
        j -= 1;
    }
    s.substring_char(0, j)
}

/// `s` without leading and trailing whitespace.
pub fn trim(s: &str) -> (r: &str)
    ensures
        r@ == trimmed(s@),
{
    trim_end(trim_start(s))
}

/// What is left of a text after trimming is empty exactly if the text is blank.
pub proof fn trimmed_is_empty_iff_blank(s: Seq<char>)
    ensures
        trimmed(s).len() == 0 <==> is_blank(s),
    decreases s.len(),
{
    if s.len() > 0 && is_space(s[0]) {
        trimmed_is_empty_iff_blank(s.drop_first());
        assert(is_blank(s) <==> is_blank(s.drop_first())) by {
            if is_blank(s.drop_first()) {
                assert forall|i: int| 0 <= i < s.len() implies is_space(#[trigger] s[i]) by {
                    if i > 0 {
                        assert(s[i] == s.drop_first()[i - 1]);
                    }
                }
            }
        }
    } else if s.len() > 0 {
        lemma_trimmed_end_keeps_first(s);
    }
}

/// Trimming at the end stops before a first character that is not whitespace.
proof fn lemma_trimmed_end_keeps_first(s: Seq<char>)
    requires
        s.len() > 0,
        !is_space(s[0]),
    ensures
        trimmed_end(s).len() > 0,
    decreases s.len(),
{
    if is_space(s.last()) {
        lemma_trimmed_end_keeps_first(s.drop_last());
    }
}

/// Whether `s` holds nothing but whitespace.
pub fn is_blank_text(s: &str) -> (r: bool)
    ensures
        r == is_blank(s@),
{
    proof {
        trimmed_is_empty_iff_blank(s@);
    }
    trim(s).is_empty()
}

/// Whether `s` begins with `prefix`.
pub fn starts_with(s: &str, prefix: &str) -> (r: bool)
    ensures
        r == prefix@.is_prefix_of(s@),
{
    let n: usize = prefix.unicode_len();
    let m: usize = s.unicode_len();
    if n > m {
        return false;
    }
    same_text(s.substring_char(0, n), prefix)
}

/// Whether `s` ends with `suffix`.
pub fn ends_with(s: &str, suffix: &str) -> (r: bool)
    ensures
        r == suffix@.is_suffix_of(s@),
{
    let n: usize = suffix.unicode_len();
    let m: usize = s.unicode_len();
    if n > m {
        return false;
    }
    same_text(s.substring_char(m - n, m), suffix)
}

/// What follows `prefix` in `s`, where `s` begins with it.
pub fn strip_prefix<'a>(s: &'a str, prefix: &str) -> (r: Option<&'a str>)
    ensures
        r is Some <==> prefix@.is_prefix_of(s@),
        r matches Some(rest) ==> rest@ == s@.skip(prefix@.len() as int),
{
    if starts_with(s, prefix) {
        Some(s.substring_char(prefix.unicode_len(), s.unicode_len()))
    } else {
        None
    }
}

/// What precedes `suffix` in `s`, where `s` ends with it.
pub fn strip_suffix<'a>(s: &'a str, suffix: &str) -> (r: Option<&'a str>)
    ensures
        r is Some <==> suffix@.is_suffix_of(s@),
        r matches Some(rest) ==> rest@ == s@.take(s@.len() - suffix@.len()),
{
    if ends_with(s, suffix) {
        Some(s.substring_char(0, s.unicode_len() - suffix.unicode_len()))
    } else {
        None
    }
}

/// `s` with each `from` replaced by `to`.
pub open spec fn replaced(s: Seq<char>, from: char, to: Seq<char>) -> Seq<char>
    decreases s.len(),
{
    if s.len() == 0 {
        Seq::empty()
    } else {
        replaced(s.drop_last(), from, to) + if s.last() == from {
            to
        } else {
            seq![s.last()]
        }
    }
}

/// `s` with each `from` replaced by `to`.
pub fn replace(s: &str, from: char, to: &str) -> (r: String)
    ensures
        r@ == replaced(s@, from, to@),
{
    let v: Vec<char> = chars_of(s);
    let mut r = String::new();
    let mut i: usize = 0;
    while i < v.len()
        invariant
            v@ == s@,
            i <= v@.len(),
            r@ == replaced(s@.take(i as int), from, to@),
        decreases v@.len() - i,
    {
        assert(s@.take(i + 1).drop_last() =~= s@.take(i as int));
        if v[i] == from {
            r.append(to);
        } else {
            r.push(v[i]);
            assert(r@ =~= replaced(s@.take(i as int), from, to@) + seq![v@[i as int]]);
        }
        i += 1;
    }
    assert(s@.take(i as int) =~= s@);
    r
}

/// A character that neither the kept part of a text nor the replacement holds is not in the result.
pub proof fn replaced_holds_no(s: Seq<char>, from: char, to: Seq<char>, c: char)
    requires
        !to.contains(c),
        c == from || !s.contains(c),
    ensures
        !replaced(s, from, to).contains(c),
    decreases s.len(),
{
    if s.len() > 0 {
        let head = s.drop_last();
        assert(!head.contains(c) || c == from) by {
            if head.contains(c) {
                let w = head.index_of(c);
                assert(s[w] == c);
            }
        }
        replaced_holds_no(head, from, to, c);
        let r = replaced(s, from, to);
        let inner = replaced(head, from, to);
        if r.contains(c) {
            let w = r.index_of(c);
            if w < inner.len() {
                assert(inner[w] == c);
            } else if s.last() == from {
                assert(to[w - inner.len()] == c);
            } else {
                assert(s[s.len() - 1] == c);
            }
        }
    }
}

/// `s` without any `c` at its start and end.
pub open spec fn stripped_of(s: Seq<char>, c: char) -> Seq<char>
    decreases s.len(),
{
    if s.len() > 0 && s[0] == c {
        stripped_of(s.drop_first(), c)
    } else if s.len() > 0 && s.last() == c {
        stripped_of(s.drop_last(), c)
    } else {
        s
    }
}

/// `s` without any `c` at its start and end.
pub fn trim_matches(s: &str, c: char) -> (r: &str)
    ensures
        r@ == stripped_of(s@, c),
{
    let v: Vec<char> = chars_of(s);
    let mut i: usize = 0;
    let mut j: usize = v.len();
    assert(s@.subrange(0, s@.len() as int) =~= s@);
    while i < j && v[i] == c
        invariant
            v@ == s@,
            i <= j == v@.len(),
            stripped_of(s@, c) == stripped_of(s@.subrange(i as int, j as int), c),
        decreases j - i,
    {
        assert(s@.subrange(i as int, j as int).drop_first() =~= s@.subrange(i + 1, j as int));
        i += 1;
    }
    while i < j && v[j - 1] == c
        invariant
            v@ == s@,
            i <= j <= v@.len(),
            i < j ==> v@[i as int] != c,
            stripped_of(s@, c) == stripped_of(s@.subrange(i as int, j as int), c),
        decreases j - i,
    {
        assert(s@.subrange(i as int, j as int).drop_last() =~= s@.subrange(i as int, j - 1));
        assert(s@.subrange(i as int, j as int)[0] == v@[i as int]);
        j -= 1;
    }
    s.substring_char(i, j)
}

/// `s` without any `c` at its end.
pub open spec fn stripped_end(s: Seq<char>, c: char) -> Seq<char>
    decreases s.len(),
{
    if s.len() > 0 && s.last() == c {
        stripped_end(s.drop_last(), c)
    } else {
        s
    }
}

/// `s` without any `c` at its end.
pub fn trim_end_matches(s: &str, c: char) -> (r: &str)
    ensures
        r@ == stripped_end(s@, c),
{
    let v: Vec<char> = chars_of(s);
    let mut j: usize = v.len();
    assert(s@.subrange(0, s@.len() as int) =~= s@);
    while j > 0 && v[j - 1] == c
        invariant
            v@ == s@,
            j <= v@.len(),
            stripped_end(s@, c) == stripped_end(s@.subrange(0, j as int), c),
        decreases j,
    {
        assert(s@.subrange(0, j as int).drop_last() =~= s@.subrange(0, j - 1));
        j -= 1;
    }
    s.substring_char(0, j)
}

/// The decimal digit of `d`.
pub open spec fn digit(d: nat) -> char {
    if d == 0 {
        '0'
    } else if d == 1 {
        '1'
    } else if d == 2 {
        '2'
    } else if d == 3 {
        '3'
    } else if d == 4 {
        '4'
    } else if d == 5 {
        '5'
    } else if d == 6 {
        '6'
    } else if d == 7 {
        '7'
    } else if d == 8 {
        '8'
    } else {
        '9'
    }
}

/// `n` in decimal, without leading zeros.
pub open spec fn numeral(n: nat) -> Seq<char>
    decreases n,
{
    if n < 10 {
        seq![digit(n)]
    } else {
        numeral(n / 10).push(digit(n % 10))
    }
}

/// `n` in decimal, with a leading zero where it has one digit.
pub open spec fn two_digits(n: nat) -> Seq<char> {
    if n < 10 {
        seq!['0', digit(n)]
    } else {
        numeral(n)
    }
}

/// The decimal digit of `d`.
fn digit_char(d: u64) -> (c: char)
    requires
        d < 10,
    ensures
        c == digit(d as nat),
{
    if d == 0 {
        '0'
    } else if d == 1 {
        '1'
    } else if d == 2 {
        '2'
    } else if d == 3 {
        '3'
    } else if d == 4 {
        '4'
    } else if d == 5 {
        '5'
    } else if d == 6 {
        '6'
    } else if d == 7 {
        '7'
    } else if d == 8 {
        '8'
    } else {
        '9'
    }
}

/// Appends `n` in decimal to `s`.
pub fn push_number(s: &mut String, n: u64)
    ensures
        final(s)@ == old(s)@ + numeral(n as nat),
    decreases n,
{
    if n >= 10 {
        push_number(s, n / 10);
    }
    s.push(digit_char(n % 10));
    assert(s@ =~= old(s)@ + numeral(n as nat));
}

/// Appends `n` in decimal to `s`, with a leading zero where it has one digit.
pub fn push_two_digits(s: &mut String, n: u64)
    ensures
        final(s)@ == old(s)@ + two_digits(n as nat),
{
    if n < 10 {
        s.push('0');
        s.push(digit_char(n));
        assert(s@ =~= old(s)@ + two_digits(n as nat));
    } else {
        push_number(s, n);
    }
}

/// Whether `s` is made of decimal digits, at least one.
pub open spec fn is_digits(s: Seq<char>) -> bool {
    s.len() > 0 && forall|i: int| 0 <= i < s.len() ==> '0' <= #[trigger] s[i] <= '9'
}

/// The number that the decimal digits `s` write.
pub open spec fn digits_value(s: Seq<char>) -> nat
    decreases s.len(),
{
    if s.len() == 0 {
        0
    } else {
        (10 * digits_value(s.drop_last()) + (s.last() as int - '0' as int)) as nat
    }
}

/// The number that `s` writes: decimal digits behind an optional plus sign, within `usize`.
pub open spec fn parsed_index(s: Seq<char>) -> Option<nat> {
    let body = if s.len() > 0 && s[0] == '+' {
        s.drop_first()
    } else {
        s
    };
    if is_digits(body) && digits_value(body) <= usize::MAX {
        Some(digits_value(body))
    } else {
        None
    }
}

/// More digits write a number that is at least as large.
proof fn lemma_digits_value_grows(s: Seq<char>, i: int)
    requires
        0 <= i <= s.len(),
        forall|k: int| 0 <= k < s.len() ==> '0' <= #[trigger] s[k] <= '9',
    ensures
        digits_value(s.take(i)) <= digits_value(s),
    decreases s.len() - i,
{
    if i == s.len() {
        assert(s.take(i) =~= s);
    } else {
        lemma_digits_value_grows(s, i + 1);
        assert(s.take(i + 1).drop_last() =~= s.take(i));
    }
}

/// Reads `s` as a number: decimal digits behind an optional plus sign.
pub fn parse_index(s: &str) -> (r: Option<usize>)
    ensures
        r is Some <==> parsed_index(s@) is Some,
        r matches Some(n) ==> Some(n as nat) == parsed_index(s@),
{
    let v: Vec<char> = chars_of(s);
    let start: usize = if v.len() > 0 && v[0] == '+' {
        1
    } else {
        0
    };
    let ghost body = s@.skip(start as int);
    assert(start == 1 ==> body =~= s@.drop_first());
    assert(start == 0 ==> body =~= s@);
    if start == v.len() {
        return None;
    }
    let mut value: usize = 0;
    let mut i: usize = start;
    while i < v.len()
        invariant
            v@ == s@,
            start <= i <= v@.len(),
            start < v@.len(),
            body == s@.skip(start as int),
            parsed_index(s@) == if is_digits(body) && digits_value(body) <= usize::MAX {
                Some(digits_value(body))
            } else {
                None
            },
            forall|k: int| 0 <= k < i - start ==> '0' <= #[trigger] body[k] <= '9',
            value == digits_value(body.take(i - start)),
        decreases v@.len() - i,
    {
        let c: char = v[i];
        assert(body[i - start] == c);
        if !('0' <= c && c <= '9') {
            return None;
        }
        let d: usize = (c as u32 - '0' as u32) as usize;
        let ghost next = body.take(i - start + 1);
        proof {
            assert(next.drop_last() =~= body.take(i - start));
            assert(digits_value(next) == 10 * value + d);
            if is_digits(body) {
                lemma_digits_value_grows(body, i - start + 1);
            }
        }
        if value > (usize::MAX - d) / 10 {
            return None;
        }
        value = 10 * value + d;
        i += 1;
    }
    assert(body.take(i - start) =~= body);
    Some(value)
}

/// The words of `s`, the stretches between whitespace, joined by single spaces.
pub open spec fn words(s: Seq<char>) -> Seq<char>
    decreases s.len(),
{
    if s.len() == 0 {
        Seq::empty()
    } else {
        let before = words(s.drop_last());
        if is_space(s.last()) {
            before
        } else if before.len() > 0 && is_space(s[s.len() - 2]) {
            before.push(' ').push(s.last())
        } else {
            before.push(s.last())
        }
    }
}

/// Joined words neither start nor end with whitespace, hold no whitespace but single spaces, and
/// hold no two spaces in a row.
pub proof fn words_are_single_spaced(s: Seq<char>)
    ensures
        words(s).len() > 0 ==> !is_space(words(s)[0]) && !is_space(words(s).last()),
        forall|i: int|
            0 <= i < words(s).len() && is_space(#[trigger] words(s)[i]) ==> words(s)[i] == ' ',
        forall|i: int|
            0 < i < words(s).len() ==> !(is_space(#[trigger] words(s)[i]) && is_space(
                words(s)[i - 1],
            )),
    decreases s.len(),
{
    if s.len() > 0 {
        words_are_single_spaced(s.drop_last());
        let before = words(s.drop_last());
        if before.len() > 0 {
            assert(before[before.len() - 1] == before.last());
        }
    }
}

/// Joined words are made of the characters of the text and of spaces.
pub proof fn words_hold_only(s: Seq<char>, c: char)
    requires
        words(s).contains(c),
        c != ' ',
    ensures
        s.contains(c),
    decreases s.len(),
{
    if s.len() > 0 {
        let head = s.drop_last();
        let before = words(head);
        let w = words(s).index_of(c);
        if w < before.len() {
            assert(before[w] == c);
            words_hold_only(head, c);
            let v = head.index_of(c);
            assert(s[v] == c);
        } else {
            assert(s[s.len() - 1] == c);
        }
    }
}

/// A text without the whitespace at its ends holds only characters of that text.
pub proof fn trimmed_holds_only(s: Seq<char>, c: char)
    requires
        trimmed(s).contains(c),
    ensures
        s.contains(c),
{
    lemma_trimmed_end_holds_only(trimmed_start(s), c);
    lemma_trimmed_start_holds_only(s, c);
}

proof fn lemma_trimmed_end_holds_only(s: Seq<char>, c: char)
    requires
        trimmed_end(s).contains(c),
    ensures
        s.contains(c),
    decreases s.len(),
{
    if s.len() > 0 && is_space(s.last()) {
        lemma_trimmed_end_holds_only(s.drop_last(), c);
        let w = s.drop_last().index_of(c);
        assert(s[w] == c);
    }
}

proof fn lemma_trimmed_start_holds_only(s: Seq<char>, c: char)
    requires
        trimmed_start(s).contains(c),
    ensures
        s.contains(c),
    decreases s.len(),
{
    if s.len() > 0 && is_space(s[0]) {
        lemma_trimmed_start_holds_only(s.drop_first(), c);
        let w = s.drop_first().index_of(c);
        assert(s[w + 1] == c);
    }
}

/// A text without a certain character at its ends holds only characters of that text.
pub proof fn stripped_holds_only(s: Seq<char>, at_ends: char, c: char)
    requires
        stripped_of(s, at_ends).contains(c),
    ensures
        s.contains(c),
    decreases s.len(),
{
    if s.len() > 0 && s[0] == at_ends {
        stripped_holds_only(s.drop_first(), at_ends, c);
        let w = s.drop_first().index_of(c);
        assert(s[w + 1] == c);
    } else if s.len() > 0 && s.last() == at_ends {
        stripped_holds_only(s.drop_last(), at_ends, c);
        let w = s.drop_last().index_of(c);
        assert(s[w] == c);
    }
}

/// The words of `s` joined by single spaces.
pub fn join_words(s: &str) -> (r: String)
    ensures
        r@ == words(s@),
{
    let v: Vec<char> = chars_of(s);
    let mut r = String::new();
    let mut empty: bool = true;
    let mut i: usize = 0;
    while i < v.len()
        invariant
            v@ == s@,
            i <= v@.len(),
            r@ == words(s@.take(i as int)),
            empty == (r@.len() == 0),
        decreases v@.len() - i,
    {
        assert(s@.take(i + 1).drop_last() =~= s@.take(i as int));
        let c: char = v[i];
        if !is_whitespace(c) {
            if !empty && is_whitespace(v[i - 1]) {
                r.push(' ');
            }
            r.push(c);
            empty = false;
        }
        i += 1;
    }
    assert(s@.take(i as int) =~= s@);
    r
}

/// The number of bytes of a character in UTF-8.
pub open spec fn utf8_width(c: char) -> nat {
    if c <= '\u{7f}' {
        1
    } else if c <= '\u{7ff}' {
        2
    } else if c <= '\u{ffff}' {
        3
    } else {
        4
    }
}

/// The number of bytes of a text in UTF-8.
pub open spec fn byte_len(s: Seq<char>) -> nat
    decreases s.len(),
{
    if s.len() == 0 {
        0
    } else {
        byte_len(s.drop_last()) + utf8_width(s.last())
    }
}

/// Whether `n` bytes of `s` are a whole number of characters.
pub open spec fn has_boundary(s: Seq<char>, n: nat) -> bool {
    exists|k: int| 0 <= k <= s.len() && #[trigger] byte_len(s.take(k)) == n
}

/// The longest beginning of `s` that has at most `n` bytes.
pub open spec fn within_bytes(s: Seq<char>, n: nat) -> Seq<char>
    decreases s.len(),
{
    if byte_len(s) <= n || s.len() == 0 {
        s
    } else {
        within_bytes(s.drop_last(), n)
    }
}

/// Longer beginnings of a text have more bytes.
proof fn lemma_byte_len_grows(s: Seq<char>, i: int, j: int)
    requires
        0 <= i < j <= s.len(),
    ensures
        byte_len(s.take(i)) < byte_len(s.take(j)),
    decreases j - i,
{
    assert(s.take(j).drop_last() =~= s.take(j - 1));
    if i < j - 1 {
        lemma_byte_len_grows(s, i, j - 1);
    }
}

/// Cutting a text at the last beginning that fits.
proof fn lemma_within_bytes(s: Seq<char>, n: nat, k: int)
    requires
        0 <= k <= s.len(),
        byte_len(s.take(k)) <= n,
        k < s.len() ==> byte_len(s.take(k + 1)) > n,
    ensures
        within_bytes(s, n) == s.take(k),
    decreases s.len(),
{
    assert(s.take(s.len() as int) =~= s);
    if k < s.len() {
        if k + 1 < s.len() {
            lemma_byte_len_grows(s, k + 1, s.len() as int);
        }
        let t = s.drop_last();
        assert(t.take(k) =~= s.take(k));
        if k + 1 < s.len() {
            assert(t.take(k + 1) =~= s.take(k + 1));
        }
        lemma_within_bytes(t, n, k);
    }
}

/// Cutting a text at a character boundary gives exactly that many bytes.
pub proof fn cut_at_boundary_is_exact(s: Seq<char>, n: nat)
    requires
        has_boundary(s, n),
    ensures
        byte_len(within_bytes(s, n)) == n,
        within_bytes(s, n).is_prefix_of(s),
{
    let k = choose|k: int| 0 <= k <= s.len() && #[trigger] byte_len(s.take(k)) == n;
    if k < s.len() {
        lemma_byte_len_grows(s, k, k + 1);
    }
    lemma_within_bytes(s, n, k);
}

/// The longest beginning of `s` that has at most `n` bytes.
pub fn cut_to_bytes(s: &str, n: usize) -> (r: &str)
    ensures
        r@ == within_bytes(s@, n as nat),
{
    let v: Vec<char> = chars_of(s);
    let mut left: usize = n;
    let mut k: usize = 0;
    while k < v.len()
        invariant
            v@ == s@,
            k <= v@.len(),
            left + byte_len(s@.take(k as int)) == n,
        decreases v@.len() - k,
    {
        let c: char = v[k];
        let width: usize = if c <= '\u{7f}' {
            1
        } else if c <= '\u{7ff}' {
            2
        } else if c <= '\u{ffff}' {
            3
        } else {
            4
        };
        assert(s@.take(k + 1).drop_last() =~= s@.take(k as int));
        if width > left {
            proof {
                lemma_within_bytes(s@, n as nat, k as int);
            }
            return s.substring_char(0, k);
        }
        left -= width;
        k += 1;
    }
    proof {
        lemma_within_bytes(s@, n as nat, k as int);
    }
    s.substring_char(0, k)
}

/// Whether `s` has at most `n` bytes.
pub fn fits_bytes(s: &str, n: usize) -> (r: bool)
    ensures
        r == (byte_len(s@) <= n),
{
    let kept: &str = cut_to_bytes(s, n);
    let fits: bool = kept.unicode_len() == s.unicode_len();
    proof {
        lemma_cut_is_short(s@, n as nat);
        assert(fits ==> kept@ =~= s@);
    }
    fits
}

/// Whether `n` bytes of `s` are a whole number of characters.
pub fn is_boundary(s: &str, n: usize) -> (r: bool)
    ensures
        r == has_boundary(s@, n as nat),
{
    let kept: &str = cut_to_bytes(s, n);
    proof {
        lemma_cut_is_short(s@, n as nat);
    }
    if n == 0 {
        assert(byte_len(s@.take(0)) == 0);
        return true;
    }
    let r: bool = !fits_bytes(kept, n - 1);
    proof {
        let k = kept@.len() as int;
        assert(kept@ =~= s@.take(k));
        if has_boundary(s@, n as nat) {
            cut_at_boundary_is_exact(s@, n as nat);
        }
        if r {
            assert(byte_len(s@.take(k)) == n);
        }
    }
    r
}

/// What is cut to some bytes has at most so many and is a beginning; it is the whole where that
/// has no more.
proof fn lemma_cut_is_short(s: Seq<char>, n: nat)
    ensures
        byte_len(within_bytes(s, n)) <= n,
        within_bytes(s, n).is_prefix_of(s),
        byte_len(s) <= n <==> within_bytes(s, n).len() == s.len(),
    decreases s.len(),
{
    if byte_len(s) > n && s.len() > 0 {
        lemma_cut_is_short(s.drop_last(), n);
    }
}

/// Whether `a` comes before `b` in the order of code points.
pub open spec fn precedes(a: Seq<char>, b: Seq<char>) -> bool
    decreases b.len(),
{
    if b.len() == 0 {
        false
    } else if a.len() == 0 {
        true
    } else if a[0] == b[0] {
        precedes(a.drop_first(), b.drop_first())
    } else {
        a[0] < b[0]
    }
}

/// Two texts do not precede each other.
pub proof fn precedes_is_asymmetric(a: Seq<char>, b: Seq<char>)
    ensures
        !(precedes(a, b) && precedes(b, a)),
    decreases a.len(),
{
    if a.len() > 0 && b.len() > 0 && a[0] == b[0] {
        precedes_is_asymmetric(a.drop_first(), b.drop_first());
    }
}

/// A text that does not precede a second, which does not precede a third, does not precede it.
pub proof fn precedes_is_transitive(a: Seq<char>, b: Seq<char>, c: Seq<char>)
    requires
        !precedes(a, b),
        !precedes(b, c),
    ensures
        !precedes(a, c),
    decreases a.len(),
{
    if a.len() > 0 && b.len() > 0 && c.len() > 0 && a[0] == b[0] && b[0] == c[0] {
        precedes_is_transitive(a.drop_first(), b.drop_first(), c.drop_first());
    }
}

/// Of two different texts one precedes the other.
pub proof fn precedes_is_total(a: Seq<char>, b: Seq<char>)
    ensures
        a == b || precedes(a, b) || precedes(b, a),
    decreases a.len(),
{
    if a.len() > 0 && b.len() > 0 && a[0] == b[0] {
        precedes_is_total(a.drop_first(), b.drop_first());
        assert(a =~= seq![a[0]] + a.drop_first());
        assert(b =~= seq![b[0]] + b.drop_first());
    } else if a.len() == 0 && b.len() == 0 {
        assert(a =~= b);
    }
}

/// Whether `a` comes before `b` in the order of code points.
pub fn is_before(a: &str, b: &str) -> (r: bool)
    ensures
        r == precedes(a@, b@),
{
    let v: Vec<char> = chars_of(a);
    let w: Vec<char> = chars_of(b);
    let mut i: usize = 0;
    assert(a@.skip(0) =~= a@);
    assert(b@.skip(0) =~= b@);
    while i < v.len() && i < w.len()
        invariant
            v@ == a@,
            w@ == b@,
            i <= v@.len(),
            i <= w@.len(),
            precedes(a@, b@) == precedes(a@.skip(i as int), b@.skip(i as int)),
        decreases v@.len() - i,
    {
        assert(a@.skip(i as int)[0] == v@[i as int]);
        assert(b@.skip(i as int)[0] == w@[i as int]);
        if v[i] != w[i] {
            return v[i] < w[i];
        }
        assert(a@.skip(i as int).drop_first() =~= a@.skip(i + 1));
        assert(b@.skip(i as int).drop_first() =~= b@.skip(i + 1));
        i += 1;
    }
    i < w.len()
}

/// Whitespace is the tab and the four line characters after it, the space, the next-line character,
/// and the spaces and separators beyond ASCII.
pub proof fn whitespace_is_by_code_point(c: char)
    ensures
        is_space(c) <==> {
            let n = c as int;
            ||| n == 9 || n == 10 || n == 11 || n == 12 || n == 13 || n == 32
            ||| n == 0x85 || n == 0xa0 || n == 0x1680
            ||| 0x2000 <= n <= 0x200a
            ||| n == 0x2028 || n == 0x2029 || n == 0x202f || n == 0x205f || n == 0x3000
        },
{
}

/// Trimming takes whitespace from both ends and nothing else: what is left is a stretch of the
/// text with only whitespace before and behind it, and neither starts nor ends with whitespace.
#[verifier::spinoff_prover]
pub proof fn trimming_takes_only_the_ends(s: Seq<char>)
    ensures
        exists|i: int, j: int|
            #![trigger s.subrange(i, j)]
            {
                &&& 0 <= i <= j <= s.len()
                &&& trimmed(s) == s.subrange(i, j)
                &&& forall|k: int| 0 <= k < i || j <= k < s.len() ==> is_space(#[trigger] s[k])
            },
        trimmed(s).len() > 0 ==> !is_space(trimmed(s)[0]) && !is_space(trimmed(s).last()),
{
    lemma_trimmed_start_form(s);
    let i = s.len() - trimmed_start(s).len();
    let t = trimmed_start(s);
    lemma_trimmed_end_form(t);
    let m = trimmed_end(t).len() as int;
    assert(trimmed(s) =~= s.subrange(i, i + m));
    assert forall|k: int| 0 <= k < i || i + m <= k < s.len() implies is_space(#[trigger] s[k]) by {
        if k >= i + m {
            assert(t[k - i] == s[k]);
        }
    }
}

proof fn lemma_trimmed_start_form(s: Seq<char>)
    ensures
        trimmed_start(s).len() <= s.len(),
        trimmed_start(s) == s.skip(s.len() - trimmed_start(s).len()),
        forall|k: int|
            0 <= k < s.len() - trimmed_start(s).len() ==> is_space(#[trigger] s[k]),
        trimmed_start(s).len() > 0 ==> !is_space(trimmed_start(s)[0]),
    decreases s.len(),
{
    if s.len() > 0 && is_space(s[0]) {
        let rest = s.drop_first();
        lemma_trimmed_start_form(rest);
        assert(trimmed_start(s) =~= s.skip(s.len() - trimmed_start(s).len()));
        assert forall|k: int| 0 <= k < s.len() - trimmed_start(s).len() implies is_space(
            #[trigger] s[k],
        ) by {
            if k > 0 {
                assert(rest[k - 1] == s[k]);
            }
        }
    } else {
        assert(s =~= s.skip(0));
    }
}

proof fn lemma_trimmed_end_form(s: Seq<char>)
    ensures
        trimmed_end(s).len() <= s.len(),
        trimmed_end(s) == s.take(trimmed_end(s).len() as int),
        forall|k: int| trimmed_end(s).len() <= k < s.len() ==> is_space(#[trigger] s[k]),
        trimmed_end(s).len() > 0 ==> !is_space(trimmed_end(s).last()),
    decreases s.len(),
{
    if s.len() > 0 && is_space(s.last()) {
        lemma_trimmed_end_form(s.drop_last());
        assert(trimmed_end(s) =~= s.take(trimmed_end(s).len() as int));
        assert forall|k: int| trimmed_end(s).len() <= k < s.len() implies is_space(
            #[trigger] s[k],
        ) by {
            if k < s.len() - 1 {
                assert(s.drop_last()[k] == s[k]);
            }
        }
    } else {
        assert(s =~= s.take(s.len() as int));
    }
}

/// Replacing a character goes from character to character: each one that is meant gives way to the
/// replacement and any other stays.
#[verifier::spinoff_prover]
pub proof fn replacing_goes_by_character(
    a: Seq<char>,
    b: Seq<char>,
    c: char,
    from: char,
    to: Seq<char>,
)
    ensures
        replaced(a + b, from, to) == replaced(a, from, to) + replaced(b, from, to),
        replaced(Seq::empty(), from, to) == Seq::<char>::empty(),
        c == from ==> replaced(seq![c], from, to) == to,
        c != from ==> replaced(seq![c], from, to) == seq![c],
    decreases b.len(),
{
    reveal_with_fuel(replaced, 2);
    assert(replaced(seq![c], from, to) =~= if c == from {
        to
    } else {
        seq![c]
    }) by {
        assert(seq![c].drop_last() =~= Seq::<char>::empty());
    }
    if b.len() == 0 {
        assert(a + b =~= a);
        assert(replaced(a, from, to) + replaced(b, from, to) =~= replaced(a, from, to));
    } else {
        replacing_goes_by_character(a, b.drop_last(), c, from, to);
        assert((a + b).drop_last() =~= a + b.drop_last());
        assert((a + b).last() == b.last());
        assert(replaced(a + b, from, to) =~= replaced(a, from, to) + replaced(b, from, to));
    }
}

/// Stripping a character takes it from both ends and nothing else: what is left is a stretch of
/// the text with only that character before and behind it, and neither starts nor ends with it.
#[verifier::spinoff_prover]
pub proof fn stripping_takes_only_the_ends(s: Seq<char>, c: char)
    ensures
        exists|i: int, j: int|
            #![trigger s.subrange(i, j)]
            {
                &&& 0 <= i <= j <= s.len()
                &&& stripped_of(s, c) == s.subrange(i, j)
                &&& forall|k: int| 0 <= k < i || j <= k < s.len() ==> #[trigger] s[k] == c
            },
        stripped_of(s, c).len() > 0 ==> stripped_of(s, c)[0] != c && stripped_of(s, c).last() != c,
{
    let (i, j) = lemma_stripped(s, c);
    assert(stripped_of(s, c) == s.subrange(i, j));
}

/// Where the stretch that stripping leaves starts and ends.
#[verifier::spinoff_prover]
proof fn lemma_stripped(s: Seq<char>, c: char) -> (r: (int, int))
    ensures
        0 <= r.0 <= r.1 <= s.len(),
        stripped_of(s, c) == s.subrange(r.0, r.1),
        forall|k: int| 0 <= k < r.0 || r.1 <= k < s.len() ==> #[trigger] s[k] == c,
        r.0 < r.1 ==> s[r.0] != c && s[r.1 - 1] != c,
    decreases s.len(),
{
    if s.len() > 0 && s[0] == c {
        let t = s.drop_first();
        let (i, j) = lemma_stripped(t, c);
        assert(t.subrange(i, j) =~= s.subrange(i + 1, j + 1));
        assert forall|k: int| 0 <= k < i + 1 || j + 1 <= k < s.len() implies #[trigger] s[k] == c by {
            if k > 0 {
                assert(t[k - 1] == s[k]);
            }
        }
        (i + 1, j + 1)
    } else if s.len() > 0 && s.last() == c {
        let t = s.drop_last();
        let (i, j) = lemma_stripped(t, c);
        assert(t.subrange(i, j) =~= s.subrange(i, j));
        assert forall|k: int| 0 <= k < i || j <= k < s.len() implies #[trigger] s[k] == c by {
            if k < s.len() - 1 {
                assert(t[k] == s[k]);
            }
        }
        (i, j)
    } else {
        assert(s =~= s.subrange(0, s.len() as int));
        (0, s.len() as int)
    }
}

/// Stripping a character at the end takes it from there and nothing else.
pub proof fn stripping_the_end_takes_only_that(s: Seq<char>, c: char)
    ensures
        stripped_end(s, c).len() <= s.len(),
        stripped_end(s, c) == s.take(stripped_end(s, c).len() as int),
        forall|k: int| stripped_end(s, c).len() <= k < s.len() ==> #[trigger] s[k] == c,
        stripped_end(s, c).len() > 0 ==> stripped_end(s, c).last() != c,
    decreases s.len(),
{
    if s.len() > 0 && s.last() == c {
        stripping_the_end_takes_only_that(s.drop_last(), c);
        assert(stripped_end(s, c) =~= s.take(stripped_end(s, c).len() as int));
        assert forall|k: int| stripped_end(s, c).len() <= k < s.len() implies #[trigger] s[k] == c by {
            if k < s.len() - 1 {
                assert(s.drop_last()[k] == s[k]);
            }
        }
    } else {
        assert(s =~= s.take(s.len() as int));
    }
}

/// A numeral reads as its number, has no leading zero, and grows by a digit as its number is
/// multiplied by ten; the digits are `0` to `9` in a row.
#[verifier::spinoff_prover]
pub proof fn numerals_read_as_their_numbers(n: nat, d: nat)
    requires
        d < 10,
    ensures
        is_digits(numeral(n)),
        digits_value(numeral(n)) == n,
        numeral(n)[0] == '0' <==> n == 0,
        numeral(d) == seq![digit(d)],
        digit(d) as int == '0' as int + d,
        n > 0 ==> numeral(10 * n + d) == numeral(n).push(digit(d)),
    decreases n,
{
    reveal_with_fuel(digits_value, 2);
    if n >= 10 {
        numerals_read_as_their_numbers(n / 10, n % 10);
        assert(numeral(n).drop_last() =~= numeral(n / 10));
        assert(numeral(n)[0] == numeral(n / 10)[0]);
    } else {
        assert(numeral(n).drop_last() =~= Seq::<char>::empty());
        assert(digits_value(Seq::<char>::empty()) == 0);
    }
    assert((10 * n + d) / 10 == n && (10 * n + d) % 10 == d);
}

/// A number of one digit is written with a zero before it, and any other as it is.
#[verifier::spinoff_prover]
pub proof fn short_numbers_are_filled_up(n: nat)
    ensures
        two_digits(n).len() >= 2,
        is_digits(two_digits(n)),
        digits_value(two_digits(n)) == n,
        n < 10 ==> two_digits(n) == seq!['0'] + numeral(n),
        n >= 10 ==> two_digits(n) == numeral(n),
        n < 100 ==> two_digits(n).len() == 2,
{
    reveal_with_fuel(digits_value, 3);
    numerals_read_as_their_numbers(n, 0);
    reveal_with_fuel(numeral, 2);
    if n < 10 {
        assert(two_digits(n).drop_last() =~= seq!['0']);
        assert(seq!['0'].drop_last() =~= Seq::<char>::empty());
        assert(two_digits(n) =~= seq!['0'] + numeral(n));
    } else {
        assert(numeral(n / 10).len() >= 1);
    }
}

/// The value of digits goes up tenfold with each digit behind them, and zeros before them do not
/// count.
#[verifier::spinoff_prover]
pub proof fn digits_count_by_place(s: Seq<char>, c: char)
    requires
        '0' <= c <= '9',
        forall|i: int| 0 <= i < s.len() ==> '0' <= #[trigger] s[i] <= '9',
    ensures
        digits_value(s.push(c)) == 10 * digits_value(s) + (c as int - '0' as int),
        digits_value(seq!['0'] + s) == digits_value(s),
        digits_value(Seq::empty()) == 0,
    decreases s.len(),
{
    reveal_with_fuel(digits_value, 2);
    assert(s.push(c).drop_last() =~= s);
    if s.len() == 0 {
        assert(seq!['0'] + s =~= seq!['0']);
        assert(seq!['0'].drop_last() =~= Seq::<char>::empty());
    } else {
        let t = s.drop_last();
        assert forall|i: int| 0 <= i < t.len() implies '0' <= #[trigger] t[i] <= '9' by {
            assert(t[i] == s[i]);
        }
        assert('0' <= s[s.len() - 1] <= '9');
        digits_count_by_place(t, s.last());
        assert((seq!['0'] + s).drop_last() =~= seq!['0'] + t);
        assert((seq!['0'] + s).last() == s.last());
        assert(t.push(s.last()) =~= s);
    }
}

/// The numeral of a number that fits is read as that number, with or without a plus sign; what
/// holds anything else than digits behind the sign is not read.
#[verifier::spinoff_prover]
pub proof fn written_numbers_are_read_back(n: nat, s: Seq<char>, i: int)
    ensures
        n <= usize::MAX ==> parsed_index(numeral(n)) == Some(n),
        n <= usize::MAX ==> parsed_index(seq!['+'] + numeral(n)) == Some(n),
        n > usize::MAX ==> parsed_index(numeral(n)) is None,
        parsed_index(Seq::empty()) is None,
        0 < i < s.len() && !('0' <= s[i] <= '9') ==> parsed_index(s) is None,
        s.len() > 0 && s[0] != '+' && !('0' <= s[0] <= '9') ==> parsed_index(s) is None,
{
    numerals_read_as_their_numbers(n, 0);
    assert((seq!['+'] + numeral(n)).drop_first() =~= numeral(n));
    assert('0' <= numeral(n)[0] <= '9');
    if 0 < i < s.len() && !('0' <= s[i] <= '9') {
        assert(s.drop_first()[i - 1] == s[i]);
    }
}

/// Joining the words of two texts with whitespace between them joins the words of both with one
/// space, and a text without whitespace is a word.
pub proof fn words_are_joined_across_whitespace(a: Seq<char>, gap: char, b: Seq<char>)
    requires
        is_space(gap),
    ensures
        words(a.push(gap) + b) == if words(a).len() == 0 {
            words(b)
        } else if words(b).len() == 0 {
            words(a)
        } else {
            words(a).push(' ') + words(b)
        },
        (forall|i: int| 0 <= i < a.len() ==> !is_space(#[trigger] a[i])) ==> words(a) == a,
    decreases a.len() + b.len(),
{
    if forall|i: int| 0 <= i < a.len() ==> !is_space(#[trigger] a[i]) {
        lemma_word(a);
    }
    lemma_joined_words(a, gap, b);
}

proof fn lemma_word(a: Seq<char>)
    requires
        forall|i: int| 0 <= i < a.len() ==> !is_space(#[trigger] a[i]),
    ensures
        words(a) == a,
    decreases a.len(),
{
    if a.len() > 0 {
        assert forall|i: int| 0 <= i < a.len() - 1 implies !is_space(
            #[trigger] a.drop_last()[i],
        ) by {
            assert(a.drop_last()[i] == a[i]);
        }
        lemma_word(a.drop_last());
        assert(!is_space(a[a.len() - 1]));
        if a.len() > 1 {
            assert(!is_space(a[a.len() - 2]));
        }
        assert(a.drop_last().push(a.last()) =~= a);
    } else {
        assert(words(a) =~= a);
    }
}

/// Without words a text holds only whitespace.
proof fn lemma_no_words(s: Seq<char>)
    requires
        words(s).len() == 0,
    ensures
        is_blank(s),
    decreases s.len(),
{
    if s.len() > 0 {
        lemma_no_words(s.drop_last());
        assert forall|i: int| 0 <= i < s.len() implies is_space(#[trigger] s[i]) by {
            if i < s.len() - 1 {
                assert(s.drop_last()[i] == s[i]);
            }
        }
    }
}

#[verifier::spinoff_prover]
proof fn lemma_joined_words(a: Seq<char>, gap: char, b: Seq<char>)
    requires
        is_space(gap),
    ensures
        words(a.push(gap) + b) == if words(a).len() == 0 {
            words(b)
        } else if words(b).len() == 0 {
            words(a)
        } else {
            words(a).push(' ') + words(b)
        },
    decreases b.len(),
{
    let s = a.push(gap) + b;
    if b.len() == 0 {
        assert(s.drop_last() =~= a);
        assert(s.last() == gap);
    } else {
        let t = b.drop_last();
        lemma_joined_words(a, gap, t);
        assert(s.drop_last() =~= a.push(gap) + t);
        assert(s.last() == b.last());
        assert(s[s.len() - 2] == if b.len() == 1 {
            gap
        } else {
            b[b.len() - 2]
        });
        if !is_space(b.last()) {
            if words(t).len() == 0 {
                lemma_no_words(t);
                if b.len() > 1 {
                    assert(is_space(t[b.len() - 2]));
                }
            }
            assert(words(s) =~= if words(a).len() == 0 {
                words(b)
            } else {
                words(a).push(' ') + words(b)
            });
        }
    }
}

/// A text has as many bytes as its parts together, and a character has one byte up to `U+007F`,
/// two up to `U+07FF`, three up to `U+FFFF` and four beyond.
#[verifier::spinoff_prover]
pub proof fn bytes_add_up(a: Seq<char>, b: Seq<char>, c: char)
    ensures
        byte_len(a + b) == byte_len(a) + byte_len(b),
        byte_len(Seq::empty()) == 0,
        byte_len(seq![c]) == if (c as int) < 0x80 {
            1nat
        } else if (c as int) < 0x800 {
            2nat
        } else if (c as int) < 0x10000 {
            3nat
        } else {
            4nat
        },
    decreases b.len(),
{
    reveal_with_fuel(byte_len, 2);
    assert(seq![c].drop_last() =~= Seq::<char>::empty());
    if b.len() == 0 {
        assert(a + b =~= a);
    } else {
        bytes_add_up(a, b.drop_last(), c);
        assert((a + b).drop_last() =~= a + b.drop_last());
    }
}

/// Cutting a text to some bytes keeps a beginning that has no more of them, and no longer
/// beginning has so few.
pub proof fn cuts_keep_as_much_as_fits(s: Seq<char>, n: nat, k: int)
    ensures
        byte_len(within_bytes(s, n)) <= n,
        within_bytes(s, n).is_prefix_of(s),
        within_bytes(s, n).len() < k <= s.len() ==> byte_len(s.take(k)) > n,
    decreases s.len(),
{
    if byte_len(s) > n && s.len() > 0 {
        cuts_keep_as_much_as_fits(s.drop_last(), n, k);
        if within_bytes(s, n).len() < k <= s.len() {
            if k == s.len() {
                assert(s.take(k) =~= s);
            } else {
                assert(s.drop_last().take(k) =~= s.take(k));
            }
        }
    }
}

/// One text comes before another where it has the smaller code point at the first place at which
/// they differ, or ends before the other does without a difference.
pub proof fn texts_are_ordered_by_their_first_difference(a: Seq<char>, b: Seq<char>, k: int)
    requires
        0 <= k <= a.len(),
        k <= b.len(),
        forall|i: int| 0 <= i < k ==> #[trigger] a[i] == b[i],
    ensures
        k < a.len() && k < b.len() && a[k] != b[k] ==> (precedes(a, b) <==> (a[k] as int) < (
        b[k] as int)),
        k == a.len() ==> (precedes(a, b) <==> k < b.len()),
        k == b.len() ==> !precedes(a, b),
    decreases k,
{
    if k > 0 {
        let x = a.drop_first();
        let y = b.drop_first();
        assert(a[0] == b[0]);
        assert forall|i: int| 0 <= i < k - 1 implies #[trigger] x[i] == y[i] by {
            assert(a[i + 1] == b[i + 1]);
        }
        texts_are_ordered_by_their_first_difference(x, y, k - 1);
    }
}

/// Replacing a character that a text does not hold leaves the text as it is.
pub proof fn replaced_keeps_the_rest(s: Seq<char>, from: char, to: Seq<char>)
    requires
        !s.contains(from),
    ensures
        replaced(s, from, to) == s,
    decreases s.len(),
{
    if s.len() > 0 {
        let head = s.drop_last();
        assert(!head.contains(from)) by {
            if head.contains(from) {
                let w = head.index_of(from);
                assert(s[w] == from);
            }
        }
        replaced_keeps_the_rest(head, from, to);
        assert(s[s.len() - 1] != from);
        assert(head + seq![s.last()] =~= s);
    } else {
        assert(replaced(s, from, to) =~= s);
    }
}

/// Trimming what was trimmed changes nothing.
pub proof fn trimming_twice_is_trimming_once(s: Seq<char>)
    ensures
        trimmed(trimmed(s)) == trimmed(s),
{
    trimming_takes_only_the_ends(s);
}

/// A text can be cut at some bytes just where as much as fits has exactly so many.
pub proof fn boundaries_are_where_cuts_are_exact(s: Seq<char>, n: nat)
    ensures
        has_boundary(s, n) <==> byte_len(within_bytes(s, n)) == n,
{
    if has_boundary(s, n) {
        cut_at_boundary_is_exact(s, n);
    }
    if byte_len(within_bytes(s, n)) == n {
        lemma_cut_is_short(s, n);
        let k = within_bytes(s, n).len() as int;
        assert(s.take(k) =~= within_bytes(s, n));
        assert(byte_len(s.take(k)) == n);
    }
}

/// What trimming, cutting, replacing, comparing and reading give back is what is said of texts.
pub proof fn operations_on_texts_give_what_is_said(
    s: &str,
    t: &str,
    c: char,
    n: usize,
    whole: &str,
    blank: bool,
    begins: bool,
    ends: bool,
    new: String,
    bare: &str,
    bare_end: &str,
    index: Option<usize>,
    joined: String,
    kept: &str,
    fits: bool,
    before: bool,
)
    requires
        call_ensures(trim, (s,), whole),
        call_ensures(is_blank_text, (s,), blank),
        call_ensures(starts_with, (s, t), begins),
        call_ensures(ends_with, (s, t), ends),
        call_ensures(replace, (s, c, t), new),
        call_ensures(trim_matches, (s, c), bare),
        call_ensures(trim_end_matches, (s, c), bare_end),
        call_ensures(parse_index, (s,), index),
        call_ensures(join_words, (s,), joined),
        call_ensures(cut_to_bytes, (s, n), kept),
        call_ensures(fits_bytes, (s, n), fits),
        call_ensures(is_before, (s, t), before),
    ensures
        whole@ == trimmed(s@),
        blank == is_blank(s@),
        begins == t@.is_prefix_of(s@),
        ends == t@.is_suffix_of(s@),
        new@ == replaced(s@, c, t@),
        bare@ == stripped_of(s@, c),
        bare_end@ == stripped_end(s@, c),
        index is Some <==> parsed_index(s@) is Some,
        index matches Some(i) ==> parsed_index(s@) == Some(i as nat),
        joined@ == words(s@),
        kept@ == within_bytes(s@, n as nat),
        fits == (byte_len(s@) <= n),
        before == precedes(s@, t@),
{
}

} // verus!
