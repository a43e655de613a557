//! Character classes, trimming, searching and number formatting on text.
//!
//! A string is modelled by its sequence of characters.  The executable
//! functions work on a vector of characters and turn it back into a string.
use vstd::prelude::*;

verus! {

/// Appends one character to a string.
///
/// `String::push` is specified by the standard library as appending the given
/// character to the end of the string; the contract says the same.
pub assume_specification[ String::push ](s: &mut String, c: char)
    ensures
        final(s)@ == old(s)@.push(c),
;

// ---------------------------------------------------------------------------
// Conversions
// ---------------------------------------------------------------------------
/// The characters of a string, in order.
pub fn to_chars(s: &str) -> (out: Vec<char>)
    ensures
        out@ == s@,
{
    let mut out: Vec<char> = Vec::new();
    for c in it: s.chars()
        invariant
            it.seq() == s@,
            out@ == s@.take(it.index() as int),
    {
        out.push(c);
        assert(s@.take(it.index() + 1) =~= s@.take(it.index() as int).push(c));
    }
    assert(s@.take(s@.len() as int) =~= s@);
    out
}

/// The string made of the given characters.
pub fn from_chars(chars: &Vec<char>) -> (out: String)
    ensures
        out@ == chars@,
{
    let mut out = String::new();
    let mut i: usize = 0;
    while i < chars.len()
        invariant
            i <= chars@.len(),
            out@ == chars@.take(i as int),
        decreases chars@.len() - i,
    {
        out.push(chars[i]);
        i = i + 1;
        assert(chars@.take(i as int) =~= chars@.take(i - 1).push(chars@[i - 1]));
    }
    assert(chars@.take(chars@.len() as int) =~= chars@);
    out
}

// ---------------------------------------------------------------------------
// Character classes
// ---------------------------------------------------------------------------
/// The characters with the Unicode property `White_Space`.
pub open spec fn whitespace(c: char) -> bool {
    ||| '\u{9}' <= c <= '\u{d}'
    ||| c == '\u{20}'
    ||| c == '\u{85}'
    ||| c == '\u{a0}'
    ||| c == '\u{1680}'
    ||| '\u{2000}' <= c <= '\u{200a}'
    ||| c == '\u{2028}'
    ||| c == '\u{2029}'
    ||| c == '\u{202f}'
    ||| c == '\u{205f}'
    ||| c == '\u{3000}'
}

/// Whether a character is white space.
pub fn is_whitespace(c: char) -> (r: bool)
    ensures
        r == whitespace(c),
{
    ('\u{9}' <= c && c <= '\u{d}') || c == '\u{20}' || c == '\u{85}' || c == '\u{a0}' || c
        == '\u{1680}' || ('\u{2000}' <= c && c <= '\u{200a}') || c == '\u{2028}' || c == '\u{2029}'
        || c == '\u{202f}' || c == '\u{205f}' || c == '\u{3000}'
}

/// The characters of the Unicode general category `Cc`.
pub open spec fn control(c: char) -> bool {
    c <= '\u{1f}' || '\u{7f}' <= c <= '\u{9f}'
}

/// Whether a character is a control character.
pub fn is_control(c: char) -> (r: bool)
    ensures
        r == control(c),
{
    c <= '\u{1f}' || ('\u{7f}' <= c && c <= '\u{9f}')
}

/// The ten ASCII digits.
pub open spec fn ascii_digit(c: char) -> bool {
    '0' <= c <= '9'
}

/// Whether a character is an ASCII digit.
pub fn is_ascii_digit(c: char) -> (r: bool)
    ensures
        r == ascii_digit(c),
{
    '0' <= c && c <= '9'
}

/// The ASCII letters and digits.
pub open spec fn ascii_alphanumeric(c: char) -> bool {
    ascii_digit(c) || 'a' <= c <= 'z' || 'A' <= c <= 'Z'
}

/// Whether a character is an ASCII letter or digit.
pub fn is_ascii_alphanumeric(c: char) -> (r: bool)
    ensures
        r == ascii_alphanumeric(c),
{
    is_ascii_digit(c) || ('a' <= c && c <= 'z') || ('A' <= c && c <= 'Z')
}

/// An ASCII lower-case letter becomes its capital; every other character stays.
pub open spec fn upper(c: char) -> char {
    if 'a' <= c <= 'z' {
        ((c as u8) - 32) as char
    } else {
        c
    }
}

/// The ASCII capital of a character.
pub fn to_upper(c: char) -> (r: char)
    ensures
        r == upper(c),
{
    if 'a' <= c && c <= 'z' {
        ((c as u8) - 32) as char
    } else {
        c
    }
}

/// The text with every ASCII lower-case letter replaced by its capital.
pub open spec fn uppercased(s: Seq<char>) -> Seq<char> {
    Seq::new(s.len(), |i: int| upper(s[i]))
}

/// The ASCII capitals of a text.
pub fn to_ascii_uppercase(s: &Vec<char>) -> (out: Vec<char>)
    ensures
        out@ == uppercased(s@),
{
    let mut out: Vec<char> = Vec::new();
    let mut i: usize = 0;
    while i < s.len()
        invariant
            i <= s@.len(),
            out@.len() == i,
            forall|j: int| 0 <= j < i ==> out@[j] == upper(s@[j]),
        decreases s@.len() - i,
    {
        out.push(to_upper(s[i]));
        i = i + 1;
    }
    assert(out@ =~= uppercased(s@));
    out
}

/// Two texts that differ at most in the case of ASCII letters.
pub open spec fn same_ignoring_case(a: Seq<char>, b: Seq<char>) -> bool {
    uppercased(a) == uppercased(b)
}

/// Whether two texts are equal up to the case of ASCII letters.
pub fn eq_ignore_ascii_case(a: &str, b: &str) -> (r: bool)
    ensures
        r == same_ignoring_case(a@, b@),
{
    let x = to_chars(a);
    let y = to_chars(b);
    if x.len() != y.len() {
        assert(uppercased(a@).len() != uppercased(b@).len());
        return false;
    }
    let mut i: usize = 0;
    while i < x.len()
        invariant
            x@ == a@,
            y@ == b@,
            x@.len() == y@.len(),
            i <= x@.len(),
            forall|j: int| 0 <= j < i ==> upper(x@[j]) == upper(y@[j]),
        decreases x@.len() - i,
    {
        if to_upper(x[i]) != to_upper(y[i]) {
            assert(uppercased(a@)[i as int] != uppercased(b@)[i as int]);
            return false;
        }
        i = i + 1;
    }
    assert(uppercased(a@) =~= uppercased(b@));
    true
}

// ---------------------------------------------------------------------------
// Trimming and prefixes
// ---------------------------------------------------------------------------
/// The text without its leading white space.
pub open spec fn trim_start(s: Seq<char>) -> Seq<char>
    decreases s.len(),
{
    if s.len() > 0 && whitespace(s[0]) {
        trim_start(s.subrange(1, s.len() as int))
    } else {
        s
    }
}

/// The text without its trailing white space.
pub open spec fn trim_end(s: Seq<char>) -> Seq<char>
    decreases s.len(),
{
    if s.len() > 0 && whitespace(s.last()) {
        trim_end(s.drop_last())
    } else {
        s
    }
}

/// The text without white space at either end.
pub open spec fn trimmed(s: Seq<char>) -> Seq<char> {
    trim_end(trim_start(s))
}

/// At most the first `n` characters of a text.
pub open spec fn prefix(s: Seq<char>, n: int) -> Seq<char> {
    if s.len() <= n {
        s
    } else {
        s.take(n)
    }
}

/// Copies `s[from..to]`.
pub fn slice_chars(s: &Vec<char>, from: usize, to: usize) -> (out: Vec<char>)
    requires
        from <= to <= s@.len(),
    ensures
        out@ == s@.subrange(from as int, to as int),
{
    let mut out: Vec<char> = Vec::new();
    let mut i: usize = from;
    while i < to
        invariant
            from <= i <= to <= s@.len(),
            out@ == s@.subrange(from as int, i as int),
        decreases to - i,
    {
        out.push(s[i]);
        i = i + 1;
        assert(s@.subrange(from as int, i as int) =~= s@.subrange(from as int, i - 1).push(
            s@[i - 1],
        ));
    }
    out
}

/// Removes the white space at both ends of a text.
pub fn trim_chars(s: &Vec<char>) -> (out: Vec<char>)
    ensures
        out@ == trimmed(s@),
{
    let mut from: usize = 0;
    assert(s@.subrange(0, s@.len() as int) =~= s@);
    while from < s.len() && is_whitespace(s[from])
        invariant
            from <= s@.len(),
            trim_start(s@) == trim_start(s@.subrange(from as int, s@.len() as int)),
        decreases s@.len() - from,
    {
        let ghost rest = s@.subrange(from as int, s@.len() as int);
        assert(rest.subrange(1, rest.len() as int) =~= s@.subrange(from + 1, s@.len() as int));
        from = from + 1;
    }
    let ghost rest = s@.subrange(from as int, s@.len() as int);
    assert(trim_start(s@) == rest);
    let mut to: usize = s.len();
    while to > from && is_whitespace(s[to - 1])
        invariant
            from <= to <= s@.len(),
            rest == s@.subrange(from as int, s@.len() as int),
            trim_end(rest) == trim_end(s@.subrange(from as int, to as int)),
        decreases to,
    {
        let ghost body = s@.subrange(from as int, to as int);
        assert(body.drop_last() =~= s@.subrange(from as int, to - 1));
        to = to - 1;
    }
    slice_chars(s, from, to)
}

/// Removes the white space at both ends of a string.
pub fn trim(s: &str) -> (out: String)
    ensures
        out@ == trimmed(s@),
{
    let chars = to_chars(s);
    from_chars(&trim_chars(&chars))
}

/// Keeps at most the first `n` characters.
pub fn take_chars(s: &Vec<char>, n: usize) -> (out: Vec<char>)
    ensures
        out@ == prefix(s@, n as int),
{
    if s.len() <= n {
        let out = slice_chars(s, 0, s.len());
        assert(s@.subrange(0, s@.len() as int) =~= s@);
        out
    } else {
        let out = slice_chars(s, 0, n);
        assert(s@.subrange(0, n as int) =~= s@.take(n as int));
        out
    }
}

/// Trims a string and keeps at most `n` characters of what is left.
pub fn trim_and_take(s: &str, n: usize) -> (out: String)
    ensures
        out@ == prefix(trimmed(s@), n as int),
{
    let chars = to_chars(s);
    let body = trim_chars(&chars);
    from_chars(&take_chars(&body, n))
}

/// A trimmed text has no white space at either end.
pub proof fn lemma_trimmed_ends(s: Seq<char>)
    ensures
        trimmed(s).len() > 0 ==> !whitespace(trimmed(s)[0]) && !whitespace(trimmed(s).last()),
        trimmed(s).len() <= s.len(),
{
    lemma_trim_start(s);
    lemma_trim_end(trim_start(s));
}

proof fn lemma_trim_start(s: Seq<char>)
    ensures
        trim_start(s).len() <= s.len(),
        trim_start(s).len() > 0 ==> !whitespace(trim_start(s)[0]),
    decreases s.len(),
{
    if s.len() > 0 && whitespace(s[0]) {
        lemma_trim_start(s.subrange(1, s.len() as int));
    }
}

proof fn lemma_trim_end(s: Seq<char>)
    ensures
        trim_end(s).len() <= s.len(),
        trim_end(s) == s.take(trim_end(s).len() as int),
        trim_end(s).len() > 0 ==> !whitespace(trim_end(s).last()),
    decreases s.len(),
{
    if s.len() > 0 && whitespace(s.last()) {
        lemma_trim_end(s.drop_last());
        assert(s.drop_last().take(trim_end(s).len() as int) =~= s.take(trim_end(s).len() as int));
    } else {
        assert(s.take(s.len() as int) =~= s);
    }
}

/// Trimming a text a second time changes nothing.
pub proof fn lemma_trim_idempotent(s: Seq<char>)
    ensures
        trimmed(trimmed(s)) == trimmed(s),
{
    lemma_trimmed_ends(s);
}

// ---------------------------------------------------------------------------
// Joining and searching
// ---------------------------------------------------------------------------
/// Concatenates two strings.
pub fn concat(a: &str, b: &str) -> (out: String)
    ensures
        out@ == a@ + b@,
{
    let mut out = a.to_owned();
    out.append(b);
    out
}

/// Concatenates three strings.
pub fn concat3(a: &str, b: &str, c: &str) -> (out: String)
    ensures
        out@ == a@ + b@ + c@,
{
    let mut out = a.to_owned();
    out.append(b);
    out.append(c);
    out
}

/// Whether two strings hold the same characters.
pub fn same_text(a: &str, b: &str) -> (r: bool)
    ensures
        r == (a@ == b@),
{
    let x = to_chars(a);
    let y = to_chars(b);
    if x.len() != y.len() {
        return false;
    }
    let mut i: usize = 0;
    while i < x.len()
        invariant
            x@ == a@,
            y@ == b@,
            x@.len() == y@.len(),
            i <= x@.len(),
            forall|j: int| 0 <= j < i ==> x@[j] == y@[j],
        decreases x@.len() - i,
    {
        if x[i] != y[i] {
            return false;
        }
        i = i + 1;
    }
    assert(a@ =~= b@);
    true
}

/// The text `needle` occurs in `s` at position `i`.
pub open spec fn occurs_at(s: Seq<char>, needle: Seq<char>, i: int) -> bool {
    0 <= i && i + needle.len() <= s.len() && s.subrange(i, i + needle.len()) == needle
}

/// The text `needle` occurs somewhere in `s`.
pub open spec fn occurs_in(s: Seq<char>, needle: Seq<char>) -> bool {
    exists|i: int| occurs_at(s, needle, i)
}

fn matches_at(s: &Vec<char>, needle: &Vec<char>, at: usize) -> (r: bool)
    ensures
        r == occurs_at(s@, needle@, at as int),
{
    if needle.len() > s.len() || at > s.len() - needle.len() {
        return false;
    }
    let mut j: usize = 0;
    while j < needle.len()
        invariant
            at + needle@.len() <= s.len(),
            j <= needle@.len(),
            forall|k: int| 0 <= k < j ==> s@[at + k] == needle@[k],
        decreases needle@.len() - j,
    {
        if s[at + j] != needle[j] {
            assert(s@.subrange(at as int, at + needle@.len())[j as int] != needle@[j as int]);
            return false;
        }
        j = j + 1;
    }
    assert(s@.subrange(at as int, at + needle@.len()) =~= needle@);
    true
}

/// Whether `needle` occurs in `s`.
pub fn contains(s: &str, needle: &str) -> (r: bool)
    ensures
        r == occurs_in(s@, needle@),
{
    let text = to_chars(s);
    let pattern = to_chars(needle);
    let mut i: usize = 0;
    while i <= text.len()
        invariant
            text@ == s@,
            pattern@ == needle@,
            i <= text@.len() + 1,
            forall|k: int| 0 <= k < i ==> !occurs_at(s@, needle@, k),
        decreases text@.len() + 1 - i,
    {
        if matches_at(&text, &pattern, i) {
            return true;
        }
        if i == text.len() {
            assert forall|k: int| !occurs_at(s@, needle@, k) by {}
            return false;
        }
        i = i + 1;
    }
    false
}

/// Whether `s` begins with `head`.
pub open spec fn begins_with(s: Seq<char>, head: Seq<char>) -> bool {
    occurs_at(s, head, 0)
}

/// Whether `s` begins with `head`.
pub fn starts_with(s: &str, head: &str) -> (r: bool)
    ensures
        r == begins_with(s@, head@),
{
    matches_at(&to_chars(s), &to_chars(head), 0)
}

// ---------------------------------------------------------------------------
// Lines
// ---------------------------------------------------------------------------
/// The text before the first line feed, or all of it where there is none.
pub open spec fn first_line(s: Seq<char>) -> Seq<char>
    decreases s.len(),
{
    if s.len() == 0 || s[0] == '\n' {
        Seq::empty()
    } else {
        seq![s[0]] + first_line(s.subrange(1, s.len() as int))
    }
}

/// The text after the first line feed, or nothing where there is none.
pub open spec fn after_line(s: Seq<char>) -> Seq<char>
    decreases s.len(),
{
    if s.len() == 0 {
        Seq::empty()
    } else if s[0] == '\n' {
        s.subrange(1, s.len() as int)
    } else {
        after_line(s.subrange(1, s.len() as int))
    }
}

/// Line number `n` (counted from zero) without white space at its ends; empty
/// where the text has fewer lines.
pub open spec fn line_field(s: Seq<char>, n: nat) -> Seq<char>
    decreases n,
{
    if n == 0 {
        trimmed(first_line(s))
    } else {
        line_field(after_line(s), (n - 1) as nat)
    }
}

/// The trimmed line number `n` of a text; empty where there is none.
pub fn nth_line(s: &Vec<char>, n: usize) -> (out: String)
    ensures
        out@ == line_field(s@, n as nat),
{
    let mut start: usize = 0;
    let mut left: usize = n;
    assert(s@.subrange(0, s@.len() as int) =~= s@);
    loop
        invariant
            start <= s@.len(),
            line_field(s@, n as nat) == line_field(
                s@.subrange(start as int, s@.len() as int),
                left as nat,
            ),
        decreases left,
    {
        let ghost rest = s@.subrange(start as int, s@.len() as int);
        let mut end: usize = start;
        assert(s@.subrange(start as int, start as int) + first_line(rest) =~= first_line(rest));
        while end < s.len() && s[end] != '\n'
            invariant
                start <= end <= s@.len(),
                rest == s@.subrange(start as int, s@.len() as int),
                first_line(rest) == s@.subrange(start as int, end as int) + first_line(
                    s@.subrange(end as int, s@.len() as int),
                ),
                after_line(rest) == after_line(s@.subrange(end as int, s@.len() as int)),
            decreases s@.len() - end,
        {
            let ghost tail = s@.subrange(end as int, s@.len() as int);
            assert(tail.subrange(1, tail.len() as int) =~= s@.subrange(end + 1, s@.len() as int));
            assert(s@.subrange(start as int, end + 1) =~= s@.subrange(start as int, end as int)
                + seq![s@[end as int]]);
            assert(first_line(rest) =~= s@.subrange(start as int, end + 1) + first_line(
                s@.subrange(end + 1, s@.len() as int),
            ));
            end = end + 1;
        }
        let ghost tail = s@.subrange(end as int, s@.len() as int);
        assert(first_line(rest) =~= s@.subrange(start as int, end as int));
        if left == 0 {
            let line = slice_chars(s, start, end);
            return from_chars(&trim_chars(&line));
        }
        if end < s.len() {
            assert(tail.subrange(1, tail.len() as int) =~= s@.subrange(end + 1, s@.len() as int));
            start = end + 1;
        } else {
            assert(s@.subrange(s@.len() as int, s@.len() as int) =~= Seq::<char>::empty());
            start = s.len();
        }
        assert(after_line(rest) =~= s@.subrange(start as int, s@.len() as int));
        left = left - 1;
    }
}

// ---------------------------------------------------------------------------
// Numbers
// ---------------------------------------------------------------------------
/// The character for a digit below sixteen, in lower case.
pub open spec fn digit_char(d: nat) -> char {
    if d < 10 {
        (d + 48) as char
    } else {
        (d + 87) as char
    }
}

/// The digits of `n` in the given base, most significant first.
pub open spec fn numeral(n: nat, base: nat) -> Seq<char>
    recommends
        2 <= base <= 16,
    decreases n,
{
    if base < 2 || n < base {
        seq![digit_char(n)]
    } else {
        proof {
            assert(n / base < n) by (nonlinear_arith)
                requires
                    n >= base,
                    base >= 2,
            ;
        }
        numeral(n / base, base).push(digit_char(n % base))
    }
}

/// The decimal digits of `n`.
pub open spec fn decimal(n: nat) -> Seq<char> {
    numeral(n, 10)
}

/// The hexadecimal digits of `n`.
pub open spec fn hexadecimal(n: nat) -> Seq<char> {
    numeral(n, 16)
}

fn digit(d: u64) -> (c: char)
    requires
        d < 16,
    ensures
        c == digit_char(d as nat),
{
    if d < 10 {
        ((d as u8) + 48) as char
    } else {
        ((d as u8) + 87) as char
    }
}

fn format_number(n: u64, base: u64) -> (out: String)
    requires
        2 <= base <= 16,
    ensures
        out@ == numeral(n as nat, base as nat),
    decreases n,
{
    if n < base {
        let mut out = String::new();
        out.push(digit(n));
        assert(out@ =~= seq![digit_char(n as nat)]);
        out
    } else {
        assert(n / base < n) by (nonlinear_arith)
            requires
                n >= base,
                base >= 2,
        ;
        let mut out = format_number(n / base, base);
        out.push(digit(n % base));
        out
    }
}

/// The decimal numeral of a number.
pub fn format_decimal(n: u64) -> (out: String)
    ensures
        out@ == decimal(n as nat),
{
    format_number(n, 10)
}

/// The lower-case hexadecimal numeral of a number.
pub fn format_hexadecimal(n: u64) -> (out: String)
    ensures
        out@ == hexadecimal(n as nat),
{
    format_number(n, 16)
}

/// The value of a text of decimal digits.
pub open spec fn decimal_value(s: Seq<char>) -> nat
    decreases s.len(),
{
    if s.len() == 0 {
        0
    } else {
        decimal_value(s.drop_last()) * 10 + ((s.last() as int) - 48) as nat
    }
}

/// Reading a decimal numeral gives back the number.
pub proof fn lemma_decimal_round_trip(n: nat)
    ensures
        decimal_value(decimal(n)) == n,
        forall|i: int| 0 <= i < decimal(n).len() ==> ascii_digit(#[trigger] decimal(n)[i]),
        decimal(n).len() > 0,
    decreases n,
{
    if n < 10 {
        reveal_with_fuel(decimal_value, 2);
        assert(decimal(n) == seq![digit_char(n)]);
        assert(decimal(n).drop_last() =~= Seq::<char>::empty());
    } else {
        lemma_decimal_round_trip(n / 10);
        assert(decimal(n).drop_last() =~= decimal(n / 10));
    }
}

/// The value of a text of hexadecimal digits in lower case.
pub open spec fn hexadecimal_value(s: Seq<char>) -> nat
    decreases s.len(),
{
    if s.len() == 0 {
        0
    } else {
        hexadecimal_value(s.drop_last()) * 16 + if ascii_digit(s.last()) {
            ((s.last() as int) - 48) as nat
        } else {
            ((s.last() as int) - 97 + 10) as nat
        }
    }
}

/// Reading a hexadecimal numeral gives back the number; it holds digits and the
/// letters from `a` to `f`.
pub proof fn lemma_hexadecimal_round_trip(n: nat)
    ensures
        hexadecimal_value(hexadecimal(n)) == n,
        hexadecimal(n).len() > 0,
        forall|i: int|
            0 <= i < hexadecimal(n).len() ==> ascii_digit(#[trigger] hexadecimal(n)[i]) || 'a'
                <= hexadecimal(n)[i] <= 'f',
    decreases n,
{
    if n < 16 {
        reveal_with_fuel(hexadecimal_value, 2);
        assert(hexadecimal(n) == seq![digit_char(n)]);
        assert(hexadecimal(n).drop_last() =~= Seq::<char>::empty());
    } else {
        lemma_hexadecimal_round_trip(n / 16);
        assert(hexadecimal(n).drop_last() =~= hexadecimal(n / 16));
    }
}

/// A decimal numeral has no leading zero, so it is the shortest one.
pub proof fn lemma_decimal_has_no_leading_zero(n: nat)
    ensures
        n > 0 ==> decimal(n)[0] != '0',
        n == 0 ==> decimal(n) == seq!['0'],
        n < 10 ==> decimal(n).len() == 1,
        n >= 10 ==> decimal(n).len() == decimal(n / 10).len() + 1,
    decreases n,
{
    if n >= 10 {
        lemma_decimal_has_no_leading_zero(n / 10);
        lemma_decimal_round_trip(n / 10);
        assert(decimal(n) == decimal(n / 10).push(digit_char(n % 10)));
        assert(decimal(n)[0] == decimal(n / 10)[0]);
    } else {
        assert(decimal(n) == seq![digit_char(n)]);
    }
}

// ---------------------------------------------------------------------------
// What holds of texts
// ---------------------------------------------------------------------------
/// The classes of characters, by their code points.
pub proof fn lemma_character_classes(c: char)
    ensures
        whitespace(c) <==> {
            let n = c as int;
            ||| 9 <= n <= 13
            ||| n == 32 || n == 133 || n == 160 || n == 5760
            ||| 8192 <= n <= 8202
            ||| n == 8232 || n == 8233 || n == 8239 || n == 8287 || n == 12288
        },
        control(c) <==> (c as int) < 32 || 127 <= (c as int) < 160,
        ascii_digit(c) <==> 48 <= (c as int) <= 57,
        ascii_alphanumeric(c) <==> 48 <= (c as int) <= 57 || 65 <= (c as int) <= 90 || 97 <= (
        c as int) <= 122,
        97 <= (c as int) <= 122 ==> upper(c) as int == (c as int) - 32,
        !(97 <= (c as int) <= 122) ==> upper(c) == c,
{
}

/// Capitals change letter by letter and only once; two texts are the same up to
/// case exactly if they are equally long and so is each pair of characters.
pub proof fn lemma_ignoring_case(a: Seq<char>, b: Seq<char>)
    ensures
        uppercased(a).len() == a.len(),
        uppercased(uppercased(a)) == uppercased(a),
        same_ignoring_case(a, uppercased(a)),
        same_ignoring_case(a, b) == same_ignoring_case(b, a),
        same_ignoring_case(a, b) <==> a.len() == b.len() && forall|i: int|
            0 <= i < a.len() ==> #[trigger] a[i] == b[i] || upper(a[i]) == upper(b[i]),
{
    assert(uppercased(uppercased(a)) =~= uppercased(a));
    if a.len() == b.len() && forall|i: int|
        0 <= i < a.len() ==> #[trigger] a[i] == b[i] || upper(a[i]) == upper(b[i]) {
        assert(uppercased(a) =~= uppercased(b));
    }
    if same_ignoring_case(a, b) {
        assert(uppercased(a).len() == uppercased(b).len());
        assert forall|i: int| 0 <= i < a.len() implies #[trigger] a[i] == b[i] || upper(a[i])
            == upper(b[i]) by {
            assert(uppercased(a)[i] == uppercased(b)[i]);
        }
    }
}

proof fn lemma_trim_start_takes_space(s: Seq<char>)
    ensures
        ({
            let from = s.len() - trim_start(s).len();
            &&& 0 <= from
            &&& trim_start(s) == s.subrange(from, s.len() as int)
            &&& forall|i: int| 0 <= i < from ==> whitespace(#[trigger] s[i])
        }),
    decreases s.len(),
{
    if s.len() > 0 && whitespace(s[0]) {
        let rest = s.subrange(1, s.len() as int);
        lemma_trim_start_takes_space(rest);
        let from = s.len() - trim_start(s).len();
        assert(rest.subrange(from - 1, rest.len() as int) =~= s.subrange(from, s.len() as int));
        assert forall|i: int| 0 <= i < from implies whitespace(#[trigger] s[i]) by {
            if i > 0 {
                assert(rest[i - 1] == s[i]);
            }
        }
    } else {
        assert(s.subrange(0, s.len() as int) =~= s);
    }
}

proof fn lemma_trim_end_takes_space(s: Seq<char>)
    ensures
        trim_end(s).len() <= s.len(),
        forall|i: int| trim_end(s).len() <= i < s.len() ==> whitespace(#[trigger] s[i]),
    decreases s.len(),
{
    if s.len() > 0 && whitespace(s.last()) {
        let rest = s.drop_last();
        lemma_trim_end_takes_space(rest);
        assert forall|i: int| trim_end(s).len() <= i < s.len() implies whitespace(#[trigger] s[i]) by {
            if i < rest.len() {
                assert(rest[i] == s[i]);
            }
        }
    }
}

/// Trimming takes nothing but white space, and only at the ends: what is left is
/// a stretch of the text, and all around it is white space.
pub proof fn lemma_trimmed_is_the_middle(s: Seq<char>) -> (from: int)
    ensures
        0 <= from <= from + trimmed(s).len() <= s.len(),
        trimmed(s) == s.subrange(from, from + trimmed(s).len()),
        forall|i: int|
            0 <= i < from || from + trimmed(s).len() <= i < s.len() ==> whitespace(#[trigger] s[i]),
        trimmed(s).len() > 0 ==> !whitespace(trimmed(s)[0]) && !whitespace(trimmed(s).last()),
{
    let start = trim_start(s);
    let from = s.len() - start.len();
    lemma_trim_start_takes_space(s);
    lemma_trim_end_takes_space(start);
    lemma_trim_end(start);
    lemma_trimmed_ends(s);
    assert(start.take(trimmed(s).len() as int) =~= s.subrange(from, from + trimmed(s).len()));
    assert forall|i: int|
        0 <= i < from || from + trimmed(s).len() <= i < s.len() implies whitespace(
        #[trigger] s[i],
    ) by {
        if i >= from {
            assert(start[i - from] == s[i]);
        }
    }
    from
}

/// The first characters of a text are as many as were asked for, or all.
pub proof fn lemma_prefix(s: Seq<char>, n: int, i: int)
    requires
        n >= 0,
    ensures
        s.len() <= n ==> prefix(s, n) == s,
        s.len() > n ==> prefix(s, n).len() == n,
        0 <= i < prefix(s, n).len() ==> prefix(s, n)[i] == s[i],
{
}

/// A text occurs wherever its characters stand one after the other, and nowhere
/// else; it occurs in, and at the start of, whatever is put around or behind it.
pub proof fn lemma_occurrence(before: Seq<char>, needle: Seq<char>, after: Seq<char>, s: Seq<char>)
    ensures
        occurs_at(before + needle + after, needle, before.len() as int),
        occurs_in(before + needle + after, needle),
        begins_with(needle + after, needle),
        s.len() < needle.len() ==> !occurs_in(s, needle),
        begins_with(s, needle) <==> needle.len() <= s.len() && s.take(needle.len() as int) == needle,
        forall|at: int, k: int|
            #![trigger occurs_at(s, needle, at), needle[k]]
            occurs_at(s, needle, at) && 0 <= k < needle.len() ==> at >= 0 && s[at + k] == needle[k],
{
    let s1 = before + needle + after;
    let at = before.len() as int;
    assert(s1.subrange(at, at + needle.len()) =~= needle);
    assert(occurs_at(s1, needle, at));
    assert((needle + after).subrange(0, needle.len() as int) =~= needle);
    if needle.len() <= s.len() {
        assert(s.subrange(0, needle.len() as int) =~= s.take(needle.len() as int));
    }
    assert forall|at: int, k: int|
        #![trigger occurs_at(s, needle, at), needle[k]]
        occurs_at(s, needle, at) && 0 <= k < needle.len() implies at >= 0 && s[at + k] == needle[k] by {
        assert(s.subrange(at, at + needle.len())[k] == s[at + k]);
    }
}

proof fn lemma_lines_split(line: Seq<char>, rest: Seq<char>)
    requires
        forall|i: int| 0 <= i < line.len() ==> #[trigger] line[i] != '\n',
    ensures
        first_line(line) == line,
        after_line(line) == Seq::<char>::empty(),
        first_line(line + seq!['\n'] + rest) == line,
        after_line(line + seq!['\n'] + rest) == rest,
    decreases line.len(),
{
    let s = line + seq!['\n'] + rest;
    if line.len() == 0 {
        assert(s[0] == '\n');
        assert(s.subrange(1, s.len() as int) =~= rest);
        assert(line =~= Seq::empty());
    } else {
        let tail = line.subrange(1, line.len() as int);
        assert forall|i: int| 0 <= i < tail.len() implies #[trigger] tail[i] != '\n' by {
            assert(line[i + 1] != '\n');
        }
        lemma_lines_split(tail, rest);
        assert(s.subrange(1, s.len() as int) =~= tail + seq!['\n'] + rest);
        assert(s[0] == line[0]);
        assert(seq![line[0]] + tail =~= line);
    }
}

/// Lines are what line feeds separate: the first line of a text is what stands
/// before the first line feed, without white space at its ends, and the others
/// are the lines of what follows.  A text without a line feed is one line.
pub proof fn lemma_lines(line: Seq<char>, rest: Seq<char>, n: nat)
    requires
        forall|i: int| 0 <= i < line.len() ==> #[trigger] line[i] != '\n',
    ensures
        line_field(line + seq!['\n'] + rest, 0) == trimmed(line),
        line_field(line + seq!['\n'] + rest, n + 1) == line_field(rest, n),
        line_field(line, 0) == trimmed(line),
        line_field(line, n + 1) == Seq::<char>::empty(),
    decreases n,
{
    lemma_lines_split(line, rest);
    reveal_with_fuel(line_field, 2);
    let none = Seq::<char>::empty();
    lemma_lines_split(none, none);
    if n > 0 {
        lemma_lines(none, none, (n - 1) as nat);
    } else {
        assert(trimmed(none) =~= none);
    }
}

/// A text that was put between others is found in the whole, and so is all that
/// is found in it.
pub proof fn lemma_occurs_within(before: Seq<char>, middle: Seq<char>, after: Seq<char>, needle: Seq<char>)
    requires
        occurs_in(middle, needle),
    ensures
        occurs_in(before + middle + after, needle),
{
    let i = choose|i: int| occurs_at(middle, needle, i);
    let s = before + middle + after;
    let at = before.len() + i;
    assert(s.subrange(at, at + needle.len()) =~= middle.subrange(i, i + needle.len()));
    assert(occurs_at(s, needle, at));
}

} // verus!
