use vstd::prelude::*;
use vstd::string::*;

use crate::chars::{lemma_run_len_bounds, run_len, scan_run, split_chars, starts_with_char, views, CharClass};
use crate::error::{ParseError, Rule};
use crate::param::{lemma_param_suffix, param, spec_param};
use crate::token::{lemma_name_suffix, name, spec_name};

verus! {

/// value = *VALUE-CHAR
pub open spec fn spec_value(s: Seq<char>) -> (Seq<char>, Seq<char>) {
    let n = run_len(s, CharClass::Value) as int;
    (s.take(n), s.skip(n))
}

/// A line terminator, CRLF or a bare LF: what follows it.
pub open spec fn spec_line_ending(s: Seq<char>) -> Option<Seq<char>> {
    if s.len() >= 1 && s[0] == '\n' {
        Some(s.skip(1))
    } else if s.len() >= 2 && s[0] == '\r' && s[1] == '\n' {
        Some(s.skip(2))
    } else {
        None
    }
}

/// A parameter as parsed: its name and its values.
pub type ParamView = (Seq<char>, Seq<Seq<char>>);

/// The contents of a list of parsed parameters.
pub open spec fn param_views(v: Seq<(String, Vec<String>)>) -> Seq<ParamView> {
    v.map_values(|p: (String, Vec<String>)| (p.0@, views(p.1@)))
}

/// *(";" param): the parameters, and what follows the last of them.
pub open spec fn spec_params(s: Seq<char>) -> (Seq<ParamView>, Seq<char>)
    decreases s.len(),
{
    if s.len() > 0 && s[0] == ';' {
        match spec_param(s.drop_first()) {
            Some((p, r)) => {
                proof {
                    lemma_param_suffix(s.drop_first());
                }
                let (ps, rest) = spec_params(r);
                (seq![p] + ps, rest)
            },
            None => (seq![], s),
        }
    } else {
        (seq![], s)
    }
}

/// What the parameters leave is no longer than what they were taken from.
pub proof fn lemma_params_suffix(s: Seq<char>)
    ensures
        spec_params(s).1.len() <= s.len(),
    decreases s.len(),
{
    if s.len() > 0 && s[0] == ';' {
        lemma_param_suffix(s.drop_first());
        if let Some((_, r)) = spec_param(s.drop_first()) {
            lemma_params_suffix(r);
        }
    }
}

/// contentline = name *(";" param ) ":" value CRLF
pub open spec fn spec_contentline(s: Seq<char>) -> Option<
    ((Seq<char>, Seq<ParamView>, Seq<char>), Seq<char>),
> {
    match spec_name(s) {
        Some((n, r1)) => {
            let (ps, r2) = spec_params(r1);
            if r2.len() > 0 && r2[0] == ':' {
                let (v, r3) = spec_value(r2.drop_first());
                match spec_line_ending(r3) {
                    Some(rest) => Some(((n, ps, v), rest)),
                    None => None,
                }
            } else {
                None
            }
        },
        None => None,
    }
}

/// A content line takes at least one character.
pub proof fn lemma_contentline_shorter(s: Seq<char>)
    ensures
        spec_contentline(s) matches Some((_, rest)) ==> rest.len() < s.len(),
{
    lemma_name_suffix(s);
    if let Some((_, r1)) = spec_name(s) {
        lemma_params_suffix(r1);
        let r2 = spec_params(r1).1;
        if r2.len() > 0 {
            lemma_run_len_bounds(r2.drop_first(), CharClass::Value);
        }
    }
}

/// value = *VALUE-CHAR
pub fn value(input: &str) -> (r: Result<(&str, String), ParseError>)
    ensures
        match r {
            Ok((rest, v)) => spec_value(input@) == (v@, rest@),
            Err(_) => false,
        },
{
    let len = input.unicode_len();
    let n = scan_run(input, len, 0, CharClass::Value);
    assert(input@.skip(0) =~= input@);
    let (rest, v) = split_chars(input, len, n);
    Ok((rest, v))
}

/// A line terminator: CRLF, or LF alone.
pub fn line_ending(input: &str) -> (r: Result<&str, ParseError>)
    ensures
        match r {
            Ok(rest) => spec_line_ending(input@) == Some(rest@),
            Err(e) => spec_line_ending(input@) is None && e.reports(input@, Rule::LineEnding),
        },
{
    let len = input.unicode_len();
    if len >= 1 && input.get_char(0) == '\n' {
        Ok(input.substring_char(1, len))
    } else if len >= 2 && input.get_char(0) == '\r' && input.get_char(1) == '\n' {
        Ok(input.substring_char(2, len))
    } else {
        Err(ParseError { input, rule: Rule::LineEnding })
    }
}

/// Takes `*(";" param)`.
fn params<'a>(input: &'a str) -> (r: (&'a str, Vec<(String, Vec<String>)>))
    ensures
        spec_params(input@) == (param_views(r.1@), r.0@),
{
    let mut list: Vec<(String, Vec<String>)> = Vec::new();
    let mut cur = input;
    assert(param_views(list@) =~= seq![]);
    while starts_with_char(cur, ';')
        invariant
            param_views(list@) + spec_params(cur@).0 == spec_params(input@).0,
            spec_params(cur@).1 == spec_params(input@).1,
        decreases cur@.len(),
    {
        let len = cur.unicode_len();
        let after = cur.substring_char(1, len);
        assert(after@ =~= cur@.drop_first());
        match param(after) {
            Ok((next, p)) => {
                proof {
                    lemma_param_suffix(cur@.drop_first());
                }
                let ghost before = param_views(list@);
                let ghost pv = (p.0@, views(p.1@));
                list.push(p);
                assert(param_views(list@) =~= before + seq![pv]);
                assert(spec_params(cur@).0 == seq![pv] + spec_params(next@).0);
                assert(param_views(list@) + spec_params(next@).0 =~= before + spec_params(
                    cur@,
                ).0);
                cur = next;
            },
            Err(_) => {
                assert(spec_params(cur@).0 =~= seq![]);
                assert(param_views(list@) =~= param_views(list@) + spec_params(cur@).0);
                return (cur, list);
            },
        }
    }
    assert(spec_params(cur@).0 =~= seq![]);
    assert(param_views(list@) =~= param_views(list@) + spec_params(cur@).0);
    (cur, list)
}

/// contentline = name *(";" param ) ":" value CRLF
///
/// The result is the name, the parameters in the order they stand (names that
/// repeat are kept), and the value not yet decoded.
pub fn contentline(input: &str) -> (r: Result<
    (&str, (String, Vec<(String, Vec<String>)>, String)),
    ParseError,
>)
    ensures
        match r {
            Ok((rest, (n, ps, v))) => spec_contentline(input@) == Some(
                ((n@, param_views(ps@), v@), rest@),
            ),
            Err(e) => spec_contentline(input@) is None && e.reports(input@, Rule::ContentLine),
        },
{
    let (r1, n) = match name(input) {
        Ok(x) => x,
        Err(_) => {
            return Err(ParseError { input, rule: Rule::ContentLine });
        },
    };
    let (r2, ps) = params(r1);
    if !starts_with_char(r2, ':') {
        return Err(ParseError { input, rule: Rule::ContentLine });
    }
    let len = r2.unicode_len();
    let after_colon = r2.substring_char(1, len);
    assert(after_colon@ =~= r2@.drop_first());
    let (r3, v) = match value(after_colon) {
        Ok(x) => x,
        Err(_) => {
            return Err(ParseError { input, rule: Rule::ContentLine });
        },
    };
    match line_ending(r3) {
        Ok(rest) => Ok((rest, (n, ps, v))),
        Err(_) => Err(ParseError { input, rule: Rule::ContentLine }),
    }
}

} // verus!
