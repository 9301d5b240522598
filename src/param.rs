use vstd::prelude::*;
use vstd::string::*;

use crate::chars::{lemma_run_len_bounds, run_len, scan_run, split_chars, starts_with_char, views, CharClass};
use crate::error::{ParseError, Rule};
use crate::token::{lemma_name_suffix, param_name, spec_name};

verus! {

/// paramtext = *SAFE-CHAR
pub open spec fn spec_paramtext(s: Seq<char>) -> (Seq<char>, Seq<char>) {
    let n = run_len(s, CharClass::Safe) as int;
    (s.take(n), s.skip(n))
}

/// quoted-string = DQUOTE *QSAFE-CHAR DQUOTE, giving the characters between the quotes.
pub open spec fn spec_quoted_string(s: Seq<char>) -> Option<(Seq<char>, Seq<char>)> {
    if s.len() >= 1 && s[0] == '"' {
        let t = s.skip(1);
        let n = run_len(t, CharClass::Qsafe) as int;
        if n < t.len() && t[n] == '"' {
            Some((t.take(n), t.skip(n + 1)))
        } else {
            None
        }
    } else {
        None
    }
}

/// param-value = paramtext / quoted-string, with quoted-string tried first.
/// It never fails: paramtext matches the empty string.
pub open spec fn spec_param_value(s: Seq<char>) -> (Seq<char>, Seq<char>) {
    match spec_quoted_string(s) {
        Some(r) => r,
        None => spec_paramtext(s),
    }
}

/// What param-value leaves is a suffix of what it was given.
pub proof fn lemma_param_value_suffix(s: Seq<char>)
    ensures
        spec_param_value(s).1.len() <= s.len(),
        spec_param_value(s).1 == s.skip(s.len() - spec_param_value(s).1.len()),
{
    lemma_run_len_bounds(s, CharClass::Safe);
    if s.len() >= 1 {
        lemma_run_len_bounds(s.skip(1), CharClass::Qsafe);
    }
    let r = spec_param_value(s).1;
    if spec_quoted_string(s) is Some {
        let n = run_len(s.skip(1), CharClass::Qsafe) as int;
        assert(r =~= s.skip(n + 2));
    } else {
        let n = run_len(s, CharClass::Safe) as int;
        assert(r =~= s.skip(n));
    }
}

/// *("," param-value): the values, and what follows the last of them.
pub open spec fn spec_more_param_values(s: Seq<char>) -> (Seq<Seq<char>>, Seq<char>)
    decreases s.len(),
{
    if s.len() > 0 && s[0] == ',' {
        let (v, r) = spec_param_value(s.drop_first());
        proof {
            lemma_param_value_suffix(s.drop_first());
        }
        let (vs, rest) = spec_more_param_values(r);
        (seq![v] + vs, rest)
    } else {
        (seq![], s)
    }
}

/// What follows the values is a suffix of what they were taken from.
pub proof fn lemma_more_param_values_suffix(s: Seq<char>)
    ensures
        spec_more_param_values(s).1.len() <= s.len(),
    decreases s.len(),
{
    if s.len() > 0 && s[0] == ',' {
        lemma_param_value_suffix(s.drop_first());
        lemma_more_param_values_suffix(spec_param_value(s.drop_first()).1);
    }
}

/// param = param-name "=" param-value *("," param-value)
pub open spec fn spec_param(s: Seq<char>) -> Option<((Seq<char>, Seq<Seq<char>>), Seq<char>)> {
    match spec_name(s) {
        Some((n, r)) => if r.len() > 0 && r[0] == '=' {
            let (v, r2) = spec_param_value(r.drop_first());
            let (vs, rest) = spec_more_param_values(r2);
            Some(((n, seq![v] + vs), rest))
        } else {
            None
        },
        None => None,
    }
}

/// What param leaves is no longer than what it was given.
pub proof fn lemma_param_suffix(s: Seq<char>)
    ensures
        spec_param(s) matches Some((_, rest)) ==> rest.len() <= s.len(),
{
    lemma_name_suffix(s);
    if let Some((_, r)) = spec_name(s) {
        if r.len() > 0 && r[0] == '=' {
            lemma_param_value_suffix(r.drop_first());
            lemma_more_param_values_suffix(spec_param_value(r.drop_first()).1);
        }
    }
}

/// paramtext = *SAFE-CHAR
pub fn paramtext(input: &str) -> (r: Result<(&str, String), ParseError>)
    ensures
        match r {
            Ok((rest, v)) => spec_paramtext(input@) == (v@, rest@),
            Err(_) => false,
        },
{
    let len = input.unicode_len();
    let n = scan_run(input, len, 0, CharClass::Safe);
    assert(input@.skip(0) =~= input@);
    let (rest, v) = split_chars(input, len, n);
    Ok((rest, v))
}

/// quoted-string = DQUOTE *QSAFE-CHAR DQUOTE
///
/// The value is what stands between the quotes. A string that is opened and
/// not closed fails as a whole.
pub fn quoted_string(input: &str) -> (r: Result<(&str, String), ParseError>)
    ensures
        match r {
            Ok((rest, v)) => spec_quoted_string(input@) == Some((v@, rest@)),
            Err(e) => spec_quoted_string(input@) is None && e.reports(input@, Rule::QuotedString),
        },
{
    let len = input.unicode_len();
    if len >= 1 && input.get_char(0) == '"' {
        let ghost t = input@.skip(1);
        let n = scan_run(input, len, 1, CharClass::Qsafe);
        if 1 + n < len && input.get_char(1 + n) == '"' {
            assert(t[n as int] == input@[1 + n]);
            let inner = input.substring_char(1, 1 + n).to_owned();
            let rest = input.substring_char(2 + n, len);
            assert(inner@ =~= t.take(n as int));
            assert(rest@ =~= t.skip(n + 1));
            return Ok((rest, inner));
        }
        proof {
            if 1 + n < len {
                assert(t[n as int] == input@[1 + n]);
            }
        }
    }
    Err(ParseError { input, rule: Rule::QuotedString })
}

/// param-value = paramtext / quoted-string
///
/// quoted-string is tried first. It never fails: where no quoted string
/// matches, paramtext takes what it can, possibly nothing (so an unclosed
/// quote is left unconsumed).
pub fn param_value(input: &str) -> (r: Result<(&str, String), ParseError>)
    ensures
        match r {
            Ok((rest, v)) => spec_param_value(input@) == (v@, rest@),
            Err(_) => false,
        },
{
    match quoted_string(input) {
        Ok(r) => Ok(r),
        Err(_) => paramtext(input),
    }
}

/// Takes param-value, which never fails.
fn take_param_value<'a>(input: &'a str) -> (r: (&'a str, String))
    ensures
        spec_param_value(input@) == (r.1@, r.0@),
{
    match param_value(input) {
        Ok(r) => r,
        Err(_) => (input, String::new()),
    }
}

/// param = param-name "=" param-value *("," param-value)
///
/// The result is the name and the values in their order; there is at least one
/// value, which is empty where nothing follows `=`.
pub fn param(input: &str) -> (r: Result<(&str, (String, Vec<String>)), ParseError>)
    ensures
        match r {
            Ok((rest, (n, vs))) => spec_param(input@) == Some(((n@, views(vs@)), rest@)),
            Err(e) => spec_param(input@) is None && e.reports(input@, Rule::Param),
        },
{
    let (after_name, pname) = match param_name(input) {
        Ok(x) => x,
        Err(_) => {
            return Err(ParseError { input, rule: Rule::Param });
        },
    };
    if !starts_with_char(after_name, '=') {
        return Err(ParseError { input, rule: Rule::Param });
    }
    let len = after_name.unicode_len();
    let after_eq = after_name.substring_char(1, len);
    assert(after_eq@ =~= after_name@.drop_first());
    let (start, first) = take_param_value(after_eq);
    let mut values: Vec<String> = Vec::new();
    values.push(first);
    let mut cur = start;
    assert(views(values@) =~= seq![first@]);
    while starts_with_char(cur, ',')
        invariant
            views(values@) + spec_more_param_values(cur@).0 == seq![first@] + spec_more_param_values(
                start@,
            ).0,
            spec_more_param_values(cur@).1 == spec_more_param_values(start@).1,
        decreases cur@.len(),
    {
        let clen = cur.unicode_len();
        let after_comma = cur.substring_char(1, clen);
        assert(after_comma@ =~= cur@.drop_first());
        let (next, v) = take_param_value(after_comma);
        proof {
            lemma_param_value_suffix(cur@.drop_first());
        }
        let ghost before = views(values@);
        values.push(v);
        assert(views(values@) =~= before + seq![v@]);
        assert(spec_more_param_values(cur@).0 == seq![v@] + spec_more_param_values(next@).0);
        assert(views(values@) + spec_more_param_values(next@).0 =~= before
            + spec_more_param_values(cur@).0);
        cur = next;
    }
    assert(spec_more_param_values(cur@).0 =~= seq![]);
    assert(views(values@) =~= views(values@) + spec_more_param_values(cur@).0);
    Ok((cur, (pname, values)))
}

} // verus!
