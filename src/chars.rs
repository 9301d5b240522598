use vstd::prelude::*;
use vstd::string::*;

use crate::error::{ParseError, Rule};

verus! {

/// WSP: space or horizontal tab.
pub open spec fn is_wsp(c: char) -> bool {
    c == ' ' || c == '\t'
}

/// NON-US-ASCII: any scalar value from 0x80 on.
pub open spec fn is_non_us_ascii(c: char) -> bool {
    c as u32 >= 0x80
}

/// SAFE-CHAR: any character but CONTROL, DQUOTE, ";", ":" and ",".
pub open spec fn is_safe_char(c: char) -> bool {
    let u = c as u32;
    is_wsp(c) || u == 0x21 || (0x23 <= u <= 0x2B) || (0x2D <= u <= 0x39) || (0x3C <= u <= 0x7E)
        || is_non_us_ascii(c)
}

/// QSAFE-CHAR: any character but CONTROL and DQUOTE.
pub open spec fn is_qsafe_char(c: char) -> bool {
    let u = c as u32;
    is_wsp(c) || u == 0x21 || (0x23 <= u <= 0x7E) || is_non_us_ascii(c)
}

/// VALUE-CHAR: any textual character.
pub open spec fn is_value_char(c: char) -> bool {
    let u = c as u32;
    is_wsp(c) || (0x21 <= u <= 0x7E) || is_non_us_ascii(c)
}

/// TSAFE-CHAR: like SAFE-CHAR, and without the backslash.
pub open spec fn is_tsafe_char(c: char) -> bool {
    is_safe_char(c) && c != '\\'
}

/// ALPHA / DIGIT of ASCII.
pub open spec fn is_alnum(c: char) -> bool {
    let u = c as u32;
    (0x30 <= u <= 0x39) || (0x41 <= u <= 0x5A) || (0x61 <= u <= 0x7A)
}

/// DIGIT of ASCII.
pub open spec fn is_digit(c: char) -> bool {
    0x30 <= (c as u32) <= 0x39
}

/// The characters of an iana-token: ALPHA / DIGIT / "-".
pub open spec fn is_name_char(c: char) -> bool {
    is_alnum(c) || c == '-'
}

/// b-char: the base64 alphabet, ALPHA / DIGIT / "+" / "/".
pub open spec fn is_b_char(c: char) -> bool {
    is_alnum(c) || c == '+' || c == '/'
}

/// The character classes of the grammar.
#[derive(Debug, Clone, Copy, PartialEq, Eq, Structural)]
pub enum CharClass {
    Wsp,
    NonUsAscii,
    Safe,
    Qsafe,
    Value,
    Tsafe,
    Alnum,
    Digit,
    NameChar,
    BChar,
}

pub open spec fn in_class(k: CharClass, c: char) -> bool {
    match k {
        CharClass::Wsp => is_wsp(c),
        CharClass::NonUsAscii => is_non_us_ascii(c),
        CharClass::Safe => is_safe_char(c),
        CharClass::Qsafe => is_qsafe_char(c),
        CharClass::Value => is_value_char(c),
        CharClass::Tsafe => is_tsafe_char(c),
        CharClass::Alnum => is_alnum(c),
        CharClass::Digit => is_digit(c),
        CharClass::NameChar => is_name_char(c),
        CharClass::BChar => is_b_char(c),
    }
}

/// Whether `c` belongs to the class `k`.
pub fn class_contains(k: CharClass, c: char) -> (r: bool)
    ensures
        r == in_class(k, c),
{
    let u = c as u32;
    let wsp = c == ' ' || c == '\t';
    let non_ascii = u >= 0x80;
    let alnum = (0x30 <= u && u <= 0x39) || (0x41 <= u && u <= 0x5A) || (0x61 <= u && u <= 0x7A);
    let safe = wsp || u == 0x21 || (0x23 <= u && u <= 0x2B) || (0x2D <= u && u <= 0x39) || (0x3C
        <= u && u <= 0x7E) || non_ascii;
    match k {
        CharClass::Wsp => wsp,
        CharClass::NonUsAscii => non_ascii,
        CharClass::Safe => safe,
        CharClass::Qsafe => wsp || u == 0x21 || (0x23 <= u && u <= 0x7E) || non_ascii,
        CharClass::Value => wsp || (0x21 <= u && u <= 0x7E) || non_ascii,
        CharClass::Tsafe => safe && c != '\\',
        CharClass::Alnum => alnum,
        CharClass::Digit => 0x30 <= u && u <= 0x39,
        CharClass::NameChar => alnum || c == '-',
        CharClass::BChar => alnum || c == '+' || c == '/',
    }
}

/// One character of class `k` at the start of `s`, and what follows it.
pub open spec fn one_char(s: Seq<char>, k: CharClass) -> Option<(char, Seq<char>)> {
    if s.len() > 0 && in_class(k, s[0]) {
        Some((s[0], s.drop_first()))
    } else {
        None
    }
}

/// The length of the longest prefix of `s` whose characters are all of class `k`.
pub open spec fn run_len(s: Seq<char>, k: CharClass) -> nat
    decreases s.len(),
{
    if s.len() > 0 && in_class(k, s[0]) {
        1 + run_len(s.drop_first(), k)
    } else {
        0
    }
}

/// `run_len` is the length of the prefix in class `k` that ends at the end of `s`
/// or at a character outside `k`.
pub proof fn lemma_run_len(s: Seq<char>, k: CharClass, n: int)
    requires
        0 <= n <= s.len(),
        forall|i: int| 0 <= i < n ==> in_class(k, #[trigger] s[i]),
        n == s.len() || !in_class(k, s[n]),
    ensures
        run_len(s, k) == n,
    decreases n,
{
    if n > 0 {
        let t = s.drop_first();
        assert forall|i: int| 0 <= i < n - 1 implies in_class(k, #[trigger] t[i]) by {
            assert(t[i] == s[i + 1]);
        }
        if n - 1 < t.len() {
            assert(t[n - 1] == s[n]);
        }
        lemma_run_len(t, k, n - 1);
    }
}

/// The prefix counted by `run_len` lies in `s` and is all of class `k`.
pub proof fn lemma_run_len_bounds(s: Seq<char>, k: CharClass)
    ensures
        run_len(s, k) <= s.len(),
        forall|i: int| 0 <= i < run_len(s, k) ==> in_class(k, #[trigger] s[i]),
        run_len(s, k) == s.len() || !in_class(k, s[run_len(s, k) as int]),
    decreases s.len(),
{
    if s.len() > 0 && in_class(k, s[0]) {
        let t = s.drop_first();
        lemma_run_len_bounds(t, k);
        assert forall|i: int| 0 <= i < run_len(s, k) implies in_class(k, #[trigger] s[i]) by {
            if i > 0 {
                assert(s[i] == t[i - 1]);
            }
        }
        if run_len(s, k) < s.len() {
            assert(s[run_len(s, k) as int] == t[run_len(t, k) as int]);
        }
    }
}

/// The number of characters of class `k` at the start of `input`, from position `from` on.
pub fn scan_run(input: &str, len: usize, from: usize, k: CharClass) -> (n: usize)
    requires
        len == input@.len(),
        from <= len,
    ensures
        n == run_len(input@.skip(from as int), k),
        from + n <= len,
{
    let mut i = from;
    while i < len && class_contains(k, input.get_char(i))
        invariant
            from <= i <= len,
            len == input@.len(),
            forall|j: int| from <= j < i ==> in_class(k, #[trigger] input@[j]),
        decreases len - i,
    {
        i = i + 1;
    }
    proof {
        let t = input@.skip(from as int);
        assert forall|j: int| 0 <= j < i - from implies in_class(k, #[trigger] t[j]) by {
            assert(t[j] == input@[from + j]);
        }
        if i < len {
            assert(t[i - from] == input@[i as int]);
        }
        lemma_run_len(t, k, i - from);
    }
    i - from
}

/// The contents of a sequence of strings.
pub open spec fn views(v: Seq<String>) -> Seq<Seq<char>> {
    v.map_values(|s: String| s@)
}

/// Whether `input` starts with `c`.
pub fn starts_with_char(input: &str, c: char) -> (r: bool)
    ensures
        r == (input@.len() > 0 && input@[0] == c),
{
    input.unicode_len() > 0 && input.get_char(0) == c
}

/// Splits `input` after its first `m` characters: what follows, and a copy of
/// what was taken.
pub fn split_chars<'a>(input: &'a str, len: usize, m: usize) -> (r: (&'a str, String))
    requires
        len == input@.len(),
        m <= len,
    ensures
        r.0@ == input@.skip(m as int),
        r.1@ == input@.take(m as int),
{
    let rest = input.substring_char(m, len);
    let taken = input.substring_char(0, m).to_owned();
    (rest, taken)
}

/// Takes one character of class `k` from the start of `input`.
fn take_char<'a>(input: &'a str, k: CharClass, rule: Rule) -> (r: Result<
    (&'a str, char),
    ParseError<'a>,
>)
    ensures
        match r {
            Ok((rest, c)) => one_char(input@, k) == Some((c, rest@)),
            Err(e) => one_char(input@, k) is None && e.reports(input@, rule),
        },
{
    let len = input.unicode_len();
    if len > 0 {
        let c = input.get_char(0);
        if class_contains(k, c) {
            let rest = input.substring_char(1, len);
            assert(rest@ =~= input@.drop_first());
            return Ok((rest, c));
        }
    }
    Err(ParseError { input, rule })
}

/// WSP = SP / HTAB
pub fn wsp(input: &str) -> (r: Result<(&str, char), ParseError>)
    ensures
        match r {
            Ok((rest, c)) => one_char(input@, CharClass::Wsp) == Some((c, rest@)),
            Err(e) => one_char(input@, CharClass::Wsp) is None && e.reports(input@, Rule::Wsp),
        },
{
    take_char(input, CharClass::Wsp, Rule::Wsp)
}

/// NON-US-ASCII = UTF8-2 / UTF8-3 / UTF8-4, that is any character from U+0080 on.
pub fn non_us_ascii(input: &str) -> (r: Result<(&str, char), ParseError>)
    ensures
        match r {
            Ok((rest, c)) => one_char(input@, CharClass::NonUsAscii) == Some((c, rest@)),
            Err(e) => one_char(input@, CharClass::NonUsAscii) is None && e.reports(
                input@,
                Rule::NonUsAscii,
            ),
        },
{
    take_char(input, CharClass::NonUsAscii, Rule::NonUsAscii)
}

/// SAFE-CHAR = WSP / %x21 / %x23-2B / %x2D-39 / %x3C-7E / NON-US-ASCII
pub fn safe_char(input: &str) -> (r: Result<(&str, char), ParseError>)
    ensures
        match r {
            Ok((rest, c)) => one_char(input@, CharClass::Safe) == Some((c, rest@)),
            Err(e) => one_char(input@, CharClass::Safe) is None && e.reports(input@, Rule::SafeChar),
        },
{
    take_char(input, CharClass::Safe, Rule::SafeChar)
}

/// QSAFE-CHAR = WSP / %x21 / %x23-7E / NON-US-ASCII
pub fn qsafe_char(input: &str) -> (r: Result<(&str, char), ParseError>)
    ensures
        match r {
            Ok((rest, c)) => one_char(input@, CharClass::Qsafe) == Some((c, rest@)),
            Err(e) => one_char(input@, CharClass::Qsafe) is None && e.reports(
                input@,
                Rule::QsafeChar,
            ),
        },
{
    take_char(input, CharClass::Qsafe, Rule::QsafeChar)
}

/// VALUE-CHAR = WSP / %x21-7E / NON-US-ASCII
pub fn value_char(input: &str) -> (r: Result<(&str, char), ParseError>)
    ensures
        match r {
            Ok((rest, c)) => one_char(input@, CharClass::Value) == Some((c, rest@)),
            Err(e) => one_char(input@, CharClass::Value) is None && e.reports(
                input@,
                Rule::ValueChar,
            ),
        },
{
    take_char(input, CharClass::Value, Rule::ValueChar)
}

/// TSAFE-CHAR = WSP / %x21 / %x23-2B / %x2D-39 / %x3C-5B / %x5D-7E / NON-US-ASCII
pub fn tsafe_char(input: &str) -> (r: Result<(&str, char), ParseError>)
    ensures
        match r {
            Ok((rest, c)) => one_char(input@, CharClass::Tsafe) == Some((c, rest@)),
            Err(e) => one_char(input@, CharClass::Tsafe) is None && e.reports(
                input@,
                Rule::TsafeChar,
            ),
        },
{
    take_char(input, CharClass::Tsafe, Rule::TsafeChar)
}

/// b-char = ALPHA / DIGIT / "+" / "/"
pub fn b_char(input: &str) -> (r: Result<(&str, char), ParseError>)
    ensures
        match r {
            Ok((rest, c)) => one_char(input@, CharClass::BChar) == Some((c, rest@)),
            Err(e) => one_char(input@, CharClass::BChar) is None && e.reports(input@, Rule::BChar),
        },
{
    take_char(input, CharClass::BChar, Rule::BChar)
}

} // verus!
