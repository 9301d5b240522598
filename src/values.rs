use vstd::prelude::*;
use vstd::string::*;

use crate::chars::{
    class_contains, is_b_char, is_digit, is_tsafe_char, run_len, scan_run, split_chars,
    CharClass,
};
use crate::error::{ParseError, Rule};
use crate::model::{Binary, Boolean, CalendarUserAddress, PropertyValue, Text};
use crate::token::{escaped_char, spec_escaped_char};

verus! {

/// One item of text: TSAFE-CHAR / ":" / DQUOTE / ESCAPED-CHAR, decoded.
pub open spec fn spec_text_item(s: Seq<char>) -> Option<(char, Seq<char>)> {
    if s.len() > 0 && (is_tsafe_char(s[0]) || s[0] == ':' || s[0] == '"') {
        Some((s[0], s.drop_first()))
    } else {
        spec_escaped_char(s)
    }
}

/// text = *(TSAFE-CHAR / ":" / DQUOTE / ESCAPED-CHAR), with the escapes decoded.
pub open spec fn spec_text(s: Seq<char>) -> (Seq<char>, Seq<char>)
    decreases s.len(),
{
    match spec_text_item(s) {
        Some((c, r)) => {
            let (t, rest) = spec_text(r);
            (seq![c] + t, rest)
        },
        None => (seq![], s),
    }
}

/// What text leaves is a suffix of what it was given.
pub proof fn lemma_text_suffix(s: Seq<char>)
    ensures
        spec_text(s).1.len() <= s.len(),
    decreases s.len(),
{
    if let Some((_, r)) = spec_text_item(s) {
        lemma_text_suffix(r);
    }
}

/// The text of an escape's meaning.
fn escape_text(c: char) -> (r: &'static str)
    requires
        c == '\\' || c == ';' || c == ',' || c == '\n',
    ensures
        r@ == seq![c],
{
    if c == '\\' {
        proof {
            reveal_strlit("\\");
        }
        assert("\\"@ =~= seq!['\\']);
        "\\"
    } else if c == ';' {
        proof {
            reveal_strlit(";");
        }
        assert(";"@ =~= seq![';']);
        ";"
    } else if c == ',' {
        proof {
            reveal_strlit(",");
        }
        assert(","@ =~= seq![',']);
        ","
    } else {
        proof {
            reveal_strlit("\n");
        }
        assert("\n"@ =~= seq!['\n']);
        "\n"
    }
}

/// text = *(TSAFE-CHAR / ":" / DQUOTE / ESCAPED-CHAR)
///
/// Never fails. Each escape is replaced by the character it stands for; the
/// text ends before the first character that is none of these.
pub fn text(input: &str) -> (r: Result<(&str, Text), ParseError>)
    ensures
        match r {
            Ok((rest, t)) => spec_text(input@) == (t.0@, rest@),
            Err(_) => false,
        },
{
    let mut out = String::new();
    let mut cur = input;
    loop
        invariant
            spec_text(input@) == (out@ + spec_text(cur@).0, spec_text(cur@).1),
        ensures
            spec_text(cur@) == (Seq::<char>::empty(), cur@),
            spec_text(input@) == (out@ + spec_text(cur@).0, spec_text(cur@).1),
        decreases cur@.len(),
    {
        let len = cur.unicode_len();
        if len > 0 {
            let c = cur.get_char(0);
            if class_contains(CharClass::Tsafe, c) || c == ':' || c == '"' {
                let piece = cur.substring_char(0, 1);
                let next = cur.substring_char(1, len);
                assert(piece@ =~= seq![c]);
                assert(next@ =~= cur@.drop_first());
                let ghost before = out@;
                out.append(piece);
                assert(out@ + spec_text(next@).0 =~= before + spec_text(cur@).0);
                cur = next;
                continue;
            }
        }
        match escaped_char(cur) {
            Ok((next, d)) => {
                let ghost before = out@;
                out.append(escape_text(d));
                assert(out@ + spec_text(next@).0 =~= before + spec_text(cur@).0);
                cur = next;
            },
            Err(_) => {
                break;
            },
        }
    }
    assert(out@ + spec_text(cur@).0 =~= out@);
    Ok((cur, Text(out)))
}

/// pidvalue = text, as a property value.
pub fn pidvalue(input: &str) -> (r: Result<(&str, PropertyValue), ParseError>)
    ensures
        match r {
            Ok((rest, v)) => v matches PropertyValue::Text(t) && spec_text(input@) == (
                t.0@,
                rest@,
            ),
            Err(_) => false,
        },
{
    match text(input) {
        Ok((rest, t)) => Ok((rest, PropertyValue::Text(t))),
        Err(e) => Err(e),
    }
}

/// b-end = (2b-char "==") / (3b-char "=")
pub open spec fn spec_b_end(s: Seq<char>) -> Option<(Seq<char>, Seq<char>)> {
    if s.len() >= 4 && is_b_char(s[0]) && is_b_char(s[1]) && ((s[2] == '=' && s[3] == '=') || (
    is_b_char(s[2]) && s[3] == '=')) {
        Some((s.take(4), s.skip(4)))
    } else {
        None
    }
}

/// Four b-chars stand at the start of `s`.
pub open spec fn starts_with_quad(s: Seq<char>) -> bool {
    s.len() >= 4 && is_b_char(s[0]) && is_b_char(s[1]) && is_b_char(s[2]) && is_b_char(s[3])
}

/// *(4b-char): how many characters the whole groups of four take.
pub open spec fn spec_quads_len(s: Seq<char>) -> nat
    decreases s.len(),
{
    if starts_with_quad(s) {
        4 + spec_quads_len(s.skip(4))
    } else {
        0
    }
}

/// binary = *(4b-char) [b-end]
///
/// The value is the text matched. Where no b-end follows the groups of four, a
/// group of one to three b-chars there matches neither padding form, and the
/// value fails.
pub open spec fn spec_binary(s: Seq<char>) -> Option<(Seq<char>, Seq<char>)> {
    let q = spec_quads_len(s) as int;
    let t = s.skip(q);
    match spec_b_end(t) {
        Some((_, rest)) => Some((s.take(q + 4), rest)),
        None => if run_len(t, CharClass::BChar) == 0 {
            Some((s.take(q), t))
        } else {
            None
        },
    }
}

/// b-end = (2b-char "==") / (3b-char "=")
pub fn b_end(input: &str) -> (r: Result<(&str, String), ParseError>)
    ensures
        match r {
            Ok((rest, v)) => spec_b_end(input@) == Some((v@, rest@)),
            Err(e) => spec_b_end(input@) is None && e.reports(input@, Rule::BEnd),
        },
{
    let len = input.unicode_len();
    if len >= 4 {
        let c0 = input.get_char(0);
        let c1 = input.get_char(1);
        let c2 = input.get_char(2);
        let c3 = input.get_char(3);
        if class_contains(CharClass::BChar, c0) && class_contains(CharClass::BChar, c1) && ((c2
            == '=' && c3 == '=') || (class_contains(CharClass::BChar, c2) && c3 == '=')) {
            let (rest, v) = split_chars(input, len, 4);
            return Ok((rest, v));
        }
    }
    Err(ParseError { input, rule: Rule::BEnd })
}

/// binary = *(4b-char) [b-end]
///
/// Checks the shape of a base64 value and keeps its text.
pub fn binary(input: &str) -> (r: Result<(&str, Binary), ParseError>)
    ensures
        match r {
            Ok((rest, b)) => spec_binary(input@) == Some((b.0@, rest@)),
            Err(e) => spec_binary(input@) is None && e.reports(input@, Rule::Binary),
        },
{
    let len = input.unicode_len();
    let mut q: usize = 0;
    assert(input@.skip(0) =~= input@);
    while len - q >= 4 && class_contains(CharClass::BChar, input.get_char(q)) && class_contains(
        CharClass::BChar,
        input.get_char(q + 1),
    ) && class_contains(CharClass::BChar, input.get_char(q + 2)) && class_contains(
        CharClass::BChar,
        input.get_char(q + 3),
    )
        invariant
            q <= len,
            len == input@.len(),
            spec_quads_len(input@) == q + spec_quads_len(input@.skip(q as int)),
        decreases len - q,
    {
        let ghost t = input@.skip(q as int);
        assert(t[0] == input@[q as int] && t[1] == input@[q + 1] && t[2] == input@[q + 2] && t[3]
            == input@[q + 3]);
        assert(t.skip(4) =~= input@.skip(q + 4));
        q = q + 4;
    }
    let ghost t = input@.skip(q as int);
    assert(!starts_with_quad(t)) by {
        if t.len() >= 4 {
            assert(t[0] == input@[q as int] && t[1] == input@[q + 1] && t[2] == input@[q + 2]
                && t[3] == input@[q + 3]);
        }
    }
    assert(spec_quads_len(input@) == q);
    let tail = input.substring_char(q, len);
    assert(tail@ =~= t);
    match b_end(tail) {
        Ok((rest, _)) => {
            let (_, v) = split_chars(input, len, q + 4);
            assert(rest@ =~= input@.skip(q + 4));
            Ok((rest, Binary(v)))
        },
        Err(_) => {
            let n = scan_run(input, len, q, CharClass::BChar);
            if n == 0 {
                let (rest, v) = split_chars(input, len, q);
                Ok((rest, Binary(v)))
            } else {
                Err(ParseError { input, rule: Rule::Binary })
            }
        },
    }
}

/// boolean = "TRUE" / "FALSE"
pub open spec fn spec_boolean(s: Seq<char>) -> Option<(Boolean, Seq<char>)> {
    if s.len() >= 4 && s[0] == 'T' && s[1] == 'R' && s[2] == 'U' && s[3] == 'E' {
        Some((Boolean::True, s.skip(4)))
    } else if s.len() >= 5 && s[0] == 'F' && s[1] == 'A' && s[2] == 'L' && s[3] == 'S' && s[4]
        == 'E' {
        Some((Boolean::False, s.skip(5)))
    } else {
        None
    }
}

/// boolean = "TRUE" / "FALSE", with exactly these letters.
pub fn boolean(input: &str) -> (r: Result<(&str, Boolean), ParseError>)
    ensures
        match r {
            Ok((rest, b)) => spec_boolean(input@) == Some((b, rest@)),
            Err(e) => spec_boolean(input@) is None && e.reports(input@, Rule::Boolean),
        },
{
    let len = input.unicode_len();
    if len >= 4 && input.get_char(0) == 'T' && input.get_char(1) == 'R' && input.get_char(2)
        == 'U' && input.get_char(3) == 'E' {
        return Ok((input.substring_char(4, len), Boolean::True));
    }
    if len >= 5 && input.get_char(0) == 'F' && input.get_char(1) == 'A' && input.get_char(2)
        == 'L' && input.get_char(3) == 'S' && input.get_char(4) == 'E' {
        return Ok((input.substring_char(5, len), Boolean::False));
    }
    Err(ParseError { input, rule: Rule::Boolean })
}

/// Exactly `n` digits at the start of `s`, and what follows them.
pub open spec fn spec_digits(s: Seq<char>, n: nat) -> Option<(Seq<char>, Seq<char>)> {
    if s.len() >= n && forall|i: int| 0 <= i < n ==> is_digit(#[trigger] s[i]) {
        Some((s.take(n as int), s.skip(n as int)))
    } else {
        None
    }
}

/// date-value = date-fullyear date-month date-mday, that is eight digits.
pub open spec fn spec_date_value(s: Seq<char>) -> Option<(Seq<char>, Seq<char>)> {
    spec_digits(s, 8)
}

/// Takes exactly `n` digits.
fn digits<'a>(input: &'a str, n: usize, rule: Rule) -> (r: Result<(&'a str, String), ParseError<'a>>)
    ensures
        match r {
            Ok((rest, v)) => spec_digits(input@, n as nat) == Some((v@, rest@)),
            Err(e) => spec_digits(input@, n as nat) is None && e.reports(input@, rule),
        },
{
    let len = input.unicode_len();
    if len < n {
        return Err(ParseError { input, rule });
    }
    let mut i: usize = 0;
    while i < n
        invariant
            i <= n <= len,
            len == input@.len(),
            forall|j: int| 0 <= j < i ==> is_digit(#[trigger] input@[j]),
        decreases n - i,
    {
        if !class_contains(CharClass::Digit, input.get_char(i)) {
            return Err(ParseError { input, rule });
        }
        i = i + 1;
    }
    let (rest, v) = split_chars(input, len, n);
    Ok((rest, v))
}

/// date-fullyear = 4DIGIT
pub fn date_fullyear(input: &str) -> (r: Result<(&str, String), ParseError>)
    ensures
        match r {
            Ok((rest, v)) => spec_digits(input@, 4) == Some((v@, rest@)),
            Err(e) => spec_digits(input@, 4) is None && e.reports(input@, Rule::DateFullyear),
        },
{
    digits(input, 4, Rule::DateFullyear)
}

/// date-month = 2DIGIT; the range 01-12 is not checked.
pub fn date_month(input: &str) -> (r: Result<(&str, String), ParseError>)
    ensures
        match r {
            Ok((rest, v)) => spec_digits(input@, 2) == Some((v@, rest@)),
            Err(e) => spec_digits(input@, 2) is None && e.reports(input@, Rule::DateMonth),
        },
{
    digits(input, 2, Rule::DateMonth)
}

/// date-mday = 2DIGIT; the range for the month is not checked.
pub fn date_mday(input: &str) -> (r: Result<(&str, String), ParseError>)
    ensures
        match r {
            Ok((rest, v)) => spec_digits(input@, 2) == Some((v@, rest@)),
            Err(e) => spec_digits(input@, 2) is None && e.reports(input@, Rule::DateMday),
        },
{
    digits(input, 2, Rule::DateMday)
}

/// date-value = date-fullyear date-month date-mday
///
/// The value is the eight digits as written; whether they name a day of the
/// calendar is not checked.
pub fn date_value(input: &str) -> (r: Result<(&str, String), ParseError>)
    ensures
        match r {
            Ok((rest, v)) => spec_date_value(input@) == Some((v@, rest@)),
            Err(e) => spec_date_value(input@) is None && e.reports(input@, Rule::DateValue),
        },
{
    let fail = ParseError { input, rule: Rule::DateValue };
    let (r1, y) = match date_fullyear(input) {
        Ok(x) => x,
        Err(_) => {
            return Err(fail);
        },
    };
    let (r2, m) = match date_month(r1) {
        Ok(x) => x,
        Err(_) => {
            proof {
                if input@.len() >= 8 && forall|i: int| 0 <= i < 8 ==> is_digit(#[trigger] input@[i]) {
                    assert forall|i: int| 0 <= i < 2 implies is_digit(#[trigger] r1@[i]) by {
                        assert(r1@[i] == input@[4 + i]);
                    }
                }
            }
            return Err(fail);
        },
    };
    let (r3, d) = match date_mday(r2) {
        Ok(x) => x,
        Err(_) => {
            proof {
                if input@.len() >= 8 && forall|i: int| 0 <= i < 8 ==> is_digit(#[trigger] input@[i]) {
                    assert forall|i: int| 0 <= i < 2 implies is_digit(#[trigger] r2@[i]) by {
                        assert(r2@[i] == input@[6 + i]);
                    }
                }
            }
            return Err(fail);
        },
    };
    let mut v = y;
    v.append(m.as_str());
    v.append(d.as_str());
    proof {
        assert forall|i: int| 0 <= i < 8 implies is_digit(#[trigger] input@[i]) by {
            if 4 <= i < 6 {
                assert(input@[i] == r1@[i - 4]);
            } else if 6 <= i {
                assert(input@[i] == r2@[i - 6]);
            }
        }
        assert(v@ =~= input@.take(8));
        assert(r3@ =~= input@.skip(8));
    }
    Ok((r3, v))
}

/// cal-address = uri
///
/// Builds the address from the result of a URI grammar run on `input`: `None`
/// where no URI starts there, else the number of characters that the URI takes.
pub fn cal_address_from_uri_match(input: &str, uri_len: Option<usize>) -> (r: Result<
    (&str, CalendarUserAddress),
    ParseError,
>)
    requires
        uri_len matches Some(n) ==> n <= input@.len(),
    ensures
        match r {
            Ok((rest, a)) => uri_len matches Some(n) && a.0@ == input@.take(n as int) && rest@
                == input@.skip(n as int),
            Err(e) => uri_len is None && e.reports(input@, Rule::CalAddress),
        },
{
    match uri_len {
        Some(n) => {
            let len = input.unicode_len();
            let (rest, a) = split_chars(input, len, n);
            Ok((rest, CalendarUserAddress(a)))
        },
        None => Err(ParseError { input, rule: Rule::CalAddress }),
    }
}

} // verus!
