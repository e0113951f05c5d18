//! Characters, tokens and decimal numbers: the building blocks of the
//! line-oriented dialects.

use vstd::prelude::*;
use vstd::string::*;

verus! {

/// `String::push` appends one character to the end of the string.
pub assume_specification[ String::push ](s: &mut String, c: char)
    ensures
        final(s)@ == old(s)@.push(c),
;

/// The ASCII white space that separates tokens: space, tab, line feed,
/// vertical tab, form feed and carriage return.
pub open spec fn is_space(c: char) -> bool {
    c == ' ' || c == '\t' || c == '\n' || c == '\r' || c == '\x0b' || c == '\x0c'
}

pub fn is_space_char(c: char) -> (r: bool)
    ensures
        r == is_space(c),
{
    c == ' ' || c == '\t' || c == '\n' || c == '\r' || c == '\x0b' || c == '\x0c'
}

/// The characters of `s`, in order.
pub fn chars_of(s: &str) -> (v: Vec<char>)
    ensures
        v@ == s@,
{
    let mut v: Vec<char> = Vec::new();
    for c in it: s.chars()
        invariant
            v@ == it.seq().take(it.index() as int),
            it.seq() == s@,
    {
        v.push(c);
    }
    v
}

/// The string made of the characters of `v`, in order.
pub fn string_of(v: &[char]) -> (s: String)
    ensures
        s@ == v@,
{
    let mut s = String::new();
    let mut i: usize = 0;
    while i < v.len()
        invariant
            i <= v.len(),
            s@ == v@.take(i as int),
        decreases v.len() - i,
    {
        s.push(v[i]);
        i += 1;
    }
    assert(v@.take(v.len() as int) == v@);
    s
}

/// How many characters other than white space stand in a row from `i` on.
pub open spec fn word_len(s: Seq<char>, i: int) -> nat
    decreases s.len() - i,
{
    if 0 <= i < s.len() && !is_space(s[i]) {
        1 + word_len(s, i + 1)
    } else {
        0
    }
}

/// The tokens of `s` that begin at or after `i`.
pub open spec fn tokens_from(s: Seq<char>, i: int) -> Seq<Seq<char>>
    decreases
            (if i < s.len() {
                s.len() - i
            } else {
                0
            }),
{
    if 0 <= i < s.len() {
        if is_space(s[i]) {
            tokens_from(s, i + 1)
        } else {
            seq![s.subrange(i, i + 1 + word_len(s, i + 1))] + tokens_from(
                s,
                i + 1 + word_len(s, i + 1),
            )
        }
    } else {
        Seq::empty()
    }
}

/// The tokens of `s`: its maximal runs of characters other than white space,
/// from left to right.
pub open spec fn tokens(s: Seq<char>) -> Seq<Seq<char>> {
    tokens_from(s, 0)
}

/// The views of a list of character vectors.
pub open spec fn views(v: Seq<Vec<char>>) -> Seq<Seq<char>> {
    v.map_values(|t: Vec<char>| t@)
}

pub proof fn lemma_word_len_bound(s: Seq<char>, i: int)
    requires
        0 <= i <= s.len(),
    ensures
        i + word_len(s, i) <= s.len(),
        forall|k: int| i <= k < i + word_len(s, i) ==> !is_space(#[trigger] s[k]),
        i + word_len(s, i) < s.len() ==> is_space(s[i + word_len(s, i)]),
    decreases s.len() - i,
{
    if i < s.len() && !is_space(s[i]) {
        lemma_word_len_bound(s, i + 1);
    }
}

/// Whether `t` is a word: non-empty and free of white space.
pub open spec fn is_word(t: Seq<char>) -> bool {
    &&& t.len() > 0
    &&& forall|j: int| 0 <= j < t.len() ==> !is_space(#[trigger] t[j])
}

/// Every token is a word.
pub proof fn lemma_tokens_are_words(s: Seq<char>, i: int)
    requires
        0 <= i <= s.len(),
    ensures
        forall|k: int| 0 <= k < tokens_from(s, i).len() ==> is_word(#[trigger] tokens_from(s, i)[k]),
    decreases s.len() - i,
{
    if i < s.len() {
        if is_space(s[i]) {
            lemma_tokens_are_words(s, i + 1);
            assert(tokens_from(s, i) == tokens_from(s, i + 1));
        } else {
            let end = i + 1 + word_len(s, i + 1);
            lemma_word_len_bound(s, i);
            lemma_tokens_are_words(s, end);
            let head = s.subrange(i, end);
            let rest = tokens_from(s, end);
            assert(tokens_from(s, i) == seq![head] + rest);
            assert(is_word(head));
            assert forall|k: int| 0 <= k < tokens_from(s, i).len() implies is_word(
                #[trigger] tokens_from(s, i)[k],
            ) by {
                if k > 0 {
                    assert(tokens_from(s, i)[k] == rest[k - 1]);
                }
            }
        }
    } else {
        assert(tokens_from(s, i).len() == 0);
    }
}

/// A run of characters other than white space that reaches the end is as
/// long as what is left.
pub proof fn lemma_word_len_run(s: Seq<char>, i: int)
    requires
        0 <= i <= s.len(),
        forall|k: int| i <= k < s.len() ==> !is_space(#[trigger] s[k]),
    ensures
        word_len(s, i) == s.len() - i,
    decreases s.len() - i,
{
    if i < s.len() {
        lemma_word_len_run(s, i + 1);
    }
}

/// A word of `a` is as long when a space and more text follow `a`.
pub proof fn lemma_word_len_before_space(a: Seq<char>, b: Seq<char>, i: int)
    requires
        0 <= i <= a.len(),
    ensures
        word_len(a + seq![' '] + b, i) == word_len(a, i),
    decreases a.len() - i,
{
    let s = a + seq![' '] + b;
    if i < a.len() {
        assert(s[i] == a[i]);
        lemma_word_len_before_space(a, b, i + 1);
    } else {
        assert(s[i] == ' ');
    }
}

/// A word of `b` is as long when text stands before `b`.
pub proof fn lemma_word_len_shift(p: Seq<char>, b: Seq<char>, j: int)
    requires
        0 <= j <= b.len(),
    ensures
        word_len(p + b, p.len() + j) == word_len(b, j),
    decreases b.len() - j,
{
    if j < b.len() {
        assert((p + b)[p.len() + j] == b[j]);
        lemma_word_len_shift(p, b, j + 1);
    }
}

/// The tokens of `b` are the same when text stands before `b`.
pub proof fn lemma_tokens_shift(p: Seq<char>, b: Seq<char>, j: int)
    requires
        0 <= j <= b.len(),
    ensures
        tokens_from(p + b, p.len() + j) == tokens_from(b, j),
    decreases b.len() - j,
{
    let s = p + b;
    if j < b.len() {
        assert(s[p.len() + j] == b[j]);
        if is_space(b[j]) {
            lemma_tokens_shift(p, b, j + 1);
        } else {
            lemma_word_len_shift(p, b, j + 1);
            lemma_word_len_bound(b, j + 1);
            let n = word_len(b, j + 1) as int;
            assert(s.subrange(p.len() + j, p.len() + j + 1 + n) == b.subrange(j, j + 1 + n));
            lemma_tokens_shift(p, b, j + 1 + n);
        }
    }
}

proof fn lemma_tokens_split_from(a: Seq<char>, b: Seq<char>, i: int)
    requires
        0 <= i <= a.len(),
    ensures
        tokens_from(a + seq![' '] + b, i) == tokens_from(a, i) + tokens(b),
    decreases a.len() - i,
{
    let s = a + seq![' '] + b;
    if i < a.len() {
        assert(s[i] == a[i]);
        if is_space(a[i]) {
            lemma_tokens_split_from(a, b, i + 1);
        } else {
            lemma_word_len_before_space(a, b, i + 1);
            lemma_word_len_bound(a, i + 1);
            let n = word_len(a, i + 1) as int;
            assert(s.subrange(i, i + 1 + n) == a.subrange(i, i + 1 + n));
            lemma_tokens_split_from(a, b, i + 1 + n);
            assert(seq![a.subrange(i, i + 1 + n)] + (tokens_from(a, i + 1 + n) + tokens(b)) == (
            seq![a.subrange(i, i + 1 + n)] + tokens_from(a, i + 1 + n)) + tokens(b));
        }
    } else {
        assert(s[i] == ' ');
        assert(s == (a + seq![' ']) + b);
        lemma_tokens_shift(a + seq![' '], b, 0);
        assert(tokens_from(a, i) + tokens(b) == tokens(b));
    }
}

/// The tokens of two texts with a space between them are the tokens of
/// the first and then those of the second.
pub proof fn lemma_tokens_split(a: Seq<char>, b: Seq<char>)
    ensures
        tokens(a + seq![' '] + b) == tokens(a) + tokens(b),
{
    lemma_tokens_split_from(a, b, 0);
}

/// A word is its own and only token.
pub proof fn lemma_tokens_of_word(w: Seq<char>)
    requires
        is_word(w),
    ensures
        tokens(w) == seq![w],
{
    lemma_word_len_run(w, 1);
    assert(w.subrange(0, w.len() as int) == w);
    assert(tokens_from(w, w.len() as int) == Seq::<Seq<char>>::empty());
    assert(seq![w] + Seq::<Seq<char>>::empty() == seq![w]);
}

/// Splits `v` into its tokens.
pub fn split_tokens(v: &Vec<char>) -> (out: Vec<Vec<char>>)
    ensures
        views(out@) == tokens(v@),
{
    let mut out: Vec<Vec<char>> = Vec::new();
    let mut i: usize = 0;
    while i < v.len()
        invariant
            i <= v.len(),
            tokens(v@) == views(out@) + tokens_from(v@, i as int),
        decreases v.len() - i,
    {
        if is_space_char(v[i]) {
            i += 1;
        } else {
            let start = i;
            let mut word: Vec<char> = Vec::new();
            while i < v.len() && !is_space_char(v[i])
                invariant
                    start <= i <= v.len(),
                    word@ == v@.subrange(start as int, i as int),
                    word_len(v@, start as int) == (i - start) + word_len(v@, i as int),
                decreases v.len() - i,
            {
                word.push(v[i]);
                i += 1;
            }
            proof {
                let ghost prev = views(out@);
                assert(word_len(v@, i as int) == 0);
                assert(views(out@.push(word)) == prev.push(word@));
                assert(prev.push(word@) + tokens_from(v@, i as int) == prev + (seq![word@]
                    + tokens_from(v@, i as int)));
            }
            out.push(word);
        }
    }
    assert(views(out@) + Seq::<Seq<char>>::empty() == views(out@));
    out
}

/// Whether `c` is one of the ten decimal digits.
pub open spec fn is_digit(c: char) -> bool {
    '0' <= c <= '9'
}

/// The number that the digit `c` stands for.
pub open spec fn digit_value(c: char) -> nat {
    (c as u32 - '0' as u32) as nat
}

/// The character that stands for the digit `d`.
pub open spec fn digit_char(d: nat) -> char
    recommends
        d < 10,
{
    ((d + 48) as u8) as char
}

/// The number that a string of decimal digits stands for.
pub open spec fn decimal_value(s: Seq<char>) -> nat
    decreases s.len(),
{
    if s.len() == 0 {
        0
    } else {
        decimal_value(s.drop_last()) * 10 + digit_value(s.last())
    }
}

/// Whether `s` is made of decimal digits only.
pub open spec fn all_digits(s: Seq<char>) -> bool {
    forall|i: int| 0 <= i < s.len() ==> is_digit(#[trigger] s[i])
}

/// The digits of a number as it is written in a request: an optional
/// leading `+` is dropped.
pub open spec fn unsigned_digits(s: Seq<char>) -> Seq<char> {
    if s.len() > 0 && s[0] == '+' {
        s.skip(1)
    } else {
        s
    }
}

/// The number that `s` denotes, if it is a decimal number of at least one
/// digit, with an optional leading `+`, that does not exceed `max`.
pub open spec fn parse_decimal(s: Seq<char>, max: nat) -> Option<nat> {
    let d = unsigned_digits(s);
    if d.len() > 0 && all_digits(d) && decimal_value(d) <= max {
        Some(decimal_value(d))
    } else {
        None
    }
}

pub proof fn lemma_decimal_value_monotonic(s: Seq<char>, k: int)
    requires
        0 <= k <= s.len(),
    ensures
        decimal_value(s.take(k)) <= decimal_value(s),
    decreases s.len() - k,
{
    if k < s.len() {
        lemma_decimal_value_monotonic(s, k + 1);
        assert(s.take(k + 1).drop_last() == s.take(k));
    } else {
        assert(s.take(k) == s);
    }
}

/// Reads a decimal number that must not exceed `max`.
pub fn parse_number(s: &[char], max: u64) -> (r: Option<u64>)
    ensures
        r matches Some(n) ==> parse_decimal(s@, max as nat) == Some(n as nat),
        r is None ==> parse_decimal(s@, max as nat) is None,
{
    let start: usize = if s.len() > 0 && s[0] == '+' {
        1
    } else {
        0
    };
    if start >= s.len() {
        return None;
    }
    let ghost d = unsigned_digits(s@);
    assert(d == s@.skip(start as int));
    let mut value: u64 = 0;
    let mut i: usize = start;
    while i < s.len()
        invariant
            start <= i <= s.len(),
            d == s@.skip(start as int),
            d == unsigned_digits(s@),
            all_digits(d.take(i - start)),
            value as nat == decimal_value(d.take(i - start)),
            value <= max,
        decreases s.len() - i,
    {
        let c = s[i];
        proof {
            assert(d.take(i - start + 1).drop_last() == d.take(i - start));
            assert(d.take(i - start + 1).last() == c);
            lemma_decimal_value_monotonic(d, i - start + 1);
        }
        if !(c >= '0' && c <= '9') {
            assert(d[i - start] == c);
            assert(!all_digits(d));
            return None;
        }
        let digit: u64 = (c as u32 - '0' as u32) as u64;
        assert(decimal_value(d.take(i - start + 1)) == value * 10 + digit);
        if digit > max || value > (max - digit) / 10 {
            assert(decimal_value(d.take(i - start + 1)) > max) by (nonlinear_arith)
                requires
                    decimal_value(d.take(i - start + 1)) == value * 10 + digit,
                    digit > max || value > (max - digit) / 10,
                    digit <= 9,
            ;
            return None;
        }
        assert(value * 10 + digit <= max) by (nonlinear_arith)
            requires
                value <= (max - digit) / 10,
                digit <= max,
        ;
        value = value * 10 + digit;
        i += 1;
    }
    assert(d.take(i - start) == d);
    Some(value)
}

/// The decimal digits of `n`, without leading zeros.
pub open spec fn decimal(n: nat) -> Seq<char>
    decreases n,
{
    if n < 10 {
        seq![digit_char(n)]
    } else {
        decimal(n / 10).push(digit_char(n % 10))
    }
}

/// What is written can be read back: the digits of `n` denote `n`.
pub proof fn lemma_decimal_round_trip(n: nat)
    ensures
        decimal(n).len() > 0,
        all_digits(decimal(n)),
        decimal_value(decimal(n)) == n,
        decimal(n)[0] != '+',
        forall|i: int| 0 <= i < decimal(n).len() ==> !is_space(#[trigger] decimal(n)[i]),
    decreases n,
{
    if n < 10 {
        let s = seq![digit_char(n)];
        assert(s.drop_last() == Seq::<char>::empty());
        assert(decimal_value(s.drop_last()) == 0);
        assert(digit_value(digit_char(n)) == n);
    } else {
        lemma_decimal_round_trip(n / 10);
        let s = decimal(n);
        assert(s.drop_last() == decimal(n / 10));
        assert(s.last() == digit_char(n % 10));
        assert(digit_value(digit_char(n % 10)) == n % 10);
        assert(s[0] == decimal(n / 10)[0]);
    }
}

/// Appends the decimal digits of `n` to `out`.
pub fn push_decimal(out: &mut Vec<char>, n: u64)
    ensures
        final(out)@ == old(out)@ + decimal(n as nat),
    decreases n,
{
    if n >= 10 {
        push_decimal(out, n / 10);
    }
    let d: u8 = (n % 10) as u8;
    out.push((d + 48) as char);
    assert(final(out)@ == old(out)@ + decimal(n as nat)) by {
        if n >= 10 {
            assert(old(out)@ + decimal(n as nat) == (old(out)@ + decimal((n / 10) as nat)).push(
                digit_char((n % 10) as nat),
            ));
        } else {
            assert(old(out)@ + decimal(n as nat) == old(out)@.push(digit_char(n as nat)));
        }
    }
}

/// How many white-space characters stand in a row from `i` on.
pub open spec fn space_len(s: Seq<char>, i: int) -> nat
    decreases s.len() - i,
{
    if 0 <= i < s.len() && is_space(s[i]) {
        1 + space_len(s, i + 1)
    } else {
        0
    }
}

/// How many white-space characters stand in a row at the end.
pub open spec fn trailing_spaces(s: Seq<char>) -> nat
    decreases s.len(),
{
    if s.len() > 0 && is_space(s.last()) {
        1 + trailing_spaces(s.drop_last())
    } else {
        0
    }
}

/// `s` without the white space at its two ends.
pub open spec fn trimmed(s: Seq<char>) -> Seq<char> {
    let start = space_len(s, 0) as int;
    if start >= s.len() {
        Seq::empty()
    } else {
        s.subrange(start, s.len() - trailing_spaces(s))
    }
}

/// Whether `s` begins with `p`.
pub open spec fn has_prefix(s: Seq<char>, p: Seq<char>) -> bool {
    p.len() <= s.len() && s.take(p.len() as int) == p
}

/// Removes the white space at the two ends of `v`.
pub fn trim(v: &Vec<char>) -> (out: Vec<char>)
    ensures
        out@ == trimmed(v@),
{
    let mut start: usize = 0;
    while start < v.len() && is_space_char(v[start])
        invariant
            start <= v.len(),
            space_len(v@, 0) == start + space_len(v@, start as int),
        decreases v.len() - start,
    {
        start += 1;
    }
    if start >= v.len() {
        return Vec::new();
    }
    let mut end: usize = v.len();
    assert(v@.take(end as int) == v@);
    while end > start + 1 && is_space_char(v[end - 1])
        invariant
            start < end <= v.len(),
            !is_space(v@[start as int]),
            trailing_spaces(v@) == (v.len() - end) + trailing_spaces(v@.take(end as int)),
        decreases end,
    {
        assert(v@.take(end as int).drop_last() == v@.take(end - 1));
        end -= 1;
    }
    proof {
        let rest = v@.take(end as int);
        assert(rest.last() == v@[end - 1]);
        assert(!is_space(rest.last()));
        assert(trailing_spaces(rest) == 0);
    }
    let out = vstd::slice::slice_to_vec(vstd::slice::slice_subrange(v.as_slice(), start, end));
    out
}

/// Whether `v` begins with the characters of `text`.
pub fn starts_with(v: &Vec<char>, text: &str) -> (r: bool)
    ensures
        r == has_prefix(v@, text@),
{
    let other = chars_of(text);
    if v.len() < other.len() {
        return false;
    }
    let mut i: usize = 0;
    while i < other.len()
        invariant
            i <= other.len() <= v.len(),
            other@ == text@,
            v@.take(i as int) == text@.take(i as int),
        decreases other.len() - i,
    {
        if v[i] != other[i] {
            assert(v@.take(other.len() as int)[i as int] != text@[i as int]);
            return false;
        }
        assert(v@.take(i + 1) == v@.take(i as int).push(v@[i as int]));
        assert(text@.take(i + 1) == text@.take(i as int).push(text@[i as int]));
        i += 1;
    }
    assert(text@.take(other.len() as int) == text@);
    true
}

} // verus!
