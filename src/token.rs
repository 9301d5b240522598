use vstd::prelude::*;
use vstd::string::*;

use crate::chars::{class_contains, lemma_run_len_bounds, is_alnum, run_len, scan_run, split_chars, CharClass};
use crate::error::{ParseError, Rule};

verus! {

/// vendorid = 3(ALPHA / DIGIT)
pub open spec fn spec_vendorid(s: Seq<char>) -> Option<(Seq<char>, Seq<char>)> {
    if s.len() >= 3 && is_alnum(s[0]) && is_alnum(s[1]) && is_alnum(s[2]) {
        Some((s.take(3), s.skip(3)))
    } else {
        None
    }
}

/// iana-token = 1*(ALPHA / DIGIT / "-")
pub open spec fn spec_iana_token(s: Seq<char>) -> Option<(Seq<char>, Seq<char>)> {
    let n = run_len(s, CharClass::NameChar) as int;
    if n == 0 {
        None
    } else {
        Some((s.take(n), s.skip(n)))
    }
}

/// `s` starts with the optional `vendorid "-"` part of an x-name.
pub open spec fn has_vendor_prefix(s: Seq<char>) -> bool {
    spec_vendorid(s) is Some && s.len() >= 4 && s[3] == '-'
}

/// x-name = "X-" [vendorid "-"] 1*(ALPHA / DIGIT / "-")
///
/// Once `vendorid "-"` has matched it is kept: the run that follows must then
/// be non-empty on its own.
pub open spec fn spec_x_name(s: Seq<char>) -> Option<(Seq<char>, Seq<char>)> {
    if s.len() >= 2 && s[0] == 'X' && s[1] == '-' {
        let v: int = if has_vendor_prefix(s.skip(2)) {
            4
        } else {
            0
        };
        let n = run_len(s.skip(2 + v), CharClass::NameChar) as int;
        if n == 0 {
            None
        } else {
            Some((s.take(2 + v + n), s.skip(2 + v + n)))
        }
    } else {
        None
    }
}

/// name = x-name / iana-token, with x-name tried first.
pub open spec fn spec_name(s: Seq<char>) -> Option<(Seq<char>, Seq<char>)> {
    if spec_x_name(s) is Some {
        spec_x_name(s)
    } else {
        spec_iana_token(s)
    }
}

/// What name leaves is no longer than what it was given.
pub proof fn lemma_name_suffix(s: Seq<char>)
    ensures
        spec_name(s) matches Some((_, rest)) ==> rest.len() <= s.len(),
{
    lemma_run_len_bounds(s, CharClass::NameChar);
    if s.len() >= 2 {
        lemma_run_len_bounds(s.skip(2), CharClass::NameChar);
        if s.len() >= 6 {
            lemma_run_len_bounds(s.skip(6), CharClass::NameChar);
        }
    }
}

/// The character that an escape `\c` stands for.
pub open spec fn unescape(c: char) -> Option<char> {
    if c == '\\' {
        Some('\\')
    } else if c == ';' {
        Some(';')
    } else if c == ',' {
        Some(',')
    } else if c == 'N' || c == 'n' {
        Some('\n')
    } else {
        None
    }
}

/// ESCAPED-CHAR = ("\\" / "\;" / "\," / "\N" / "\n"), decoded.
pub open spec fn spec_escaped_char(s: Seq<char>) -> Option<(char, Seq<char>)> {
    if s.len() >= 2 && s[0] == '\\' && unescape(s[1]) is Some {
        Some((unescape(s[1])->0, s.skip(2)))
    } else {
        None
    }
}

/// vendorid = 3(ALPHA / DIGIT)
pub fn vendorid(input: &str) -> (r: Result<(&str, String), ParseError>)
    ensures
        match r {
            Ok((rest, v)) => spec_vendorid(input@) == Some((v@, rest@)),
            Err(e) => spec_vendorid(input@) is None && e.reports(input@, Rule::VendorId),
        },
{
    let len = input.unicode_len();
    if len >= 3 && class_contains(CharClass::Alnum, input.get_char(0)) && class_contains(
        CharClass::Alnum,
        input.get_char(1),
    ) && class_contains(CharClass::Alnum, input.get_char(2)) {
        let (rest, v) = split_chars(input, len, 3);
        Ok((rest, v))
    } else {
        Err(ParseError { input, rule: Rule::VendorId })
    }
}

/// iana-token = 1*(ALPHA / DIGIT / "-")
pub fn iana_token(input: &str) -> (r: Result<(&str, String), ParseError>)
    ensures
        match r {
            Ok((rest, v)) => spec_iana_token(input@) == Some((v@, rest@)),
            Err(e) => spec_iana_token(input@) is None && e.reports(input@, Rule::IanaToken),
        },
{
    let len = input.unicode_len();
    let n = scan_run(input, len, 0, CharClass::NameChar);
    assert(input@.skip(0) =~= input@);
    if n == 0 {
        Err(ParseError { input, rule: Rule::IanaToken })
    } else {
        let (rest, v) = split_chars(input, len, n);
        Ok((rest, v))
    }
}

/// x-name = "X-" [vendorid "-"] 1*(ALPHA / DIGIT / "-")
pub fn x_name(input: &str) -> (r: Result<(&str, String), ParseError>)
    ensures
        match r {
            Ok((rest, v)) => spec_x_name(input@) == Some((v@, rest@)),
            Err(e) => spec_x_name(input@) is None && e.reports(input@, Rule::XName),
        },
{
    let len = input.unicode_len();
    if len >= 2 && input.get_char(0) == 'X' && input.get_char(1) == '-' {
        let ghost t = input@.skip(2);
        let vendor = len >= 6 && class_contains(CharClass::Alnum, input.get_char(2))
            && class_contains(CharClass::Alnum, input.get_char(3)) && class_contains(
            CharClass::Alnum,
            input.get_char(4),
        ) && input.get_char(5) == '-';
        let v: usize = if vendor {
            4
        } else {
            0
        };
        assert(vendor == has_vendor_prefix(t)) by {
            if t.len() >= 4 {
                assert(t[0] == input@[2] && t[1] == input@[3] && t[2] == input@[4] && t[3]
                    == input@[5]);
            }
        }
        let n = scan_run(input, len, 2 + v, CharClass::NameChar);
        assert(input@.skip(2 + v) =~= t.skip(v as int));
        if n == 0 {
            Err(ParseError { input, rule: Rule::XName })
        } else {
            let (rest, name) = split_chars(input, len, 2 + v + n);
            Ok((rest, name))
        }
    } else {
        Err(ParseError { input, rule: Rule::XName })
    }
}

/// name = iana-token / x-name
///
/// x-name is tried first: a bare `X-` is no x-name, and is then taken as an
/// iana-token.
pub fn name(input: &str) -> (r: Result<(&str, String), ParseError>)
    ensures
        match r {
            Ok((rest, v)) => spec_name(input@) == Some((v@, rest@)),
            Err(e) => spec_name(input@) is None && e.reports(input@, Rule::Name),
        },
{
    match x_name(input) {
        Ok(r) => Ok(r),
        Err(_) => match iana_token(input) {
            Ok(r) => Ok(r),
            Err(_) => Err(ParseError { input, rule: Rule::Name }),
        },
    }
}

/// param-name = iana-token / x-name, with x-name tried first as in `name`.
pub fn param_name(input: &str) -> (r: Result<(&str, String), ParseError>)
    ensures
        match r {
            Ok((rest, v)) => spec_name(input@) == Some((v@, rest@)),
            Err(e) => spec_name(input@) is None && e.reports(input@, Rule::ParamName),
        },
{
    match name(input) {
        Ok(r) => Ok(r),
        Err(_) => Err(ParseError { input, rule: Rule::ParamName }),
    }
}

/// ESCAPED-CHAR = ("\\" / "\;" / "\," / "\N" / "\n")
///
/// `\\` stands for a backslash, `\;` and `\,` for the punctuation, `\N` and
/// `\n` for a newline.
pub fn escaped_char(input: &str) -> (r: Result<(&str, char), ParseError>)
    ensures
        match r {
            Ok((rest, c)) => spec_escaped_char(input@) == Some((c, rest@)),
            Err(e) => spec_escaped_char(input@) is None && e.reports(input@, Rule::EscapedChar),
        },
{
    let len = input.unicode_len();
    if len >= 2 && input.get_char(0) == '\\' {
        let e = input.get_char(1);
        let decoded = if e == '\\' {
            Some('\\')
        } else if e == ';' {
            Some(';')
        } else if e == ',' {
            Some(',')
        } else if e == 'N' || e == 'n' {
            Some('\n')
        } else {
            None
        };
        if let Some(c) = decoded {
            let rest = input.substring_char(2, len);
            return Ok((rest, c));
        }
    }
    Err(ParseError { input, rule: Rule::EscapedChar })
}

} // verus!
