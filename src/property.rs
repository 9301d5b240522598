use vstd::prelude::*;
use vstd::string::*;

use crate::chars::views;
use crate::error::{ParseError, Rule};
use crate::line::{
    contentline, lemma_contentline_shorter, line_ending, param_views, spec_contentline,
    spec_line_ending, ParamView,
};
use crate::model::{ParameterName, ParameterValue, Property, PropertyName, PropertyValue};
use crate::values::{lemma_text_suffix, spec_text, text};

verus! {

/// The name of the PRODID property.
pub open spec fn prodid_name() -> Seq<char> {
    seq!['P', 'R', 'O', 'D', 'I', 'D']
}

/// prodid = "PRODID" ":" pidvalue CRLF: the decoded text, and what follows the line.
pub open spec fn spec_prodid(s: Seq<char>) -> Option<(Seq<char>, Seq<char>)> {
    if s.len() >= 7 && s.take(6) == prodid_name() && s[6] == ':' {
        let (t, r) = spec_text(s.skip(7));
        match spec_line_ending(r) {
            Some(rest) => Some((t, rest)),
            None => None,
        }
    } else {
        None
    }
}

/// The contents of a parameter map.
pub open spec fn param_map_view(m: Seq<(ParameterName, ParameterValue)>) -> Seq<ParamView> {
    m.map_values(|e: (ParameterName, ParameterValue)| (e.0.0@, views(e.1.0@)))
}

/// A parameter named `n` stands in `m`.
pub open spec fn has_name(m: Seq<ParamView>, n: Seq<char>) -> bool {
    exists|i: int| 0 <= i < m.len() && #[trigger] m[i].0 == n
}

/// No two entries of `m` have the same name.
pub open spec fn names_unique(m: Seq<ParamView>) -> bool {
    forall|i: int, j: int| 0 <= i < j < m.len() ==> #[trigger] m[i].0 != #[trigger] m[j].0
}

/// Puts `p` into `m`: it replaces the entry of the same name, in its place, or
/// else comes last.
pub open spec fn put_param(m: Seq<ParamView>, p: ParamView) -> Seq<ParamView> {
    if has_name(m, p.0) {
        let i = choose|i: int| 0 <= i < m.len() && #[trigger] m[i].0 == p.0;
        m.update(i, p)
    } else {
        m.push(p)
    }
}

/// The parameter map of a list of parameters: each name once, in the order in
/// which the names first appear, with the values of its last occurrence.
pub open spec fn spec_parameter_map(list: Seq<ParamView>) -> Seq<ParamView>
    decreases list.len(),
{
    if list.len() == 0 {
        seq![]
    } else {
        put_param(spec_parameter_map(list.drop_last()), list.last())
    }
}

/// Builds the parameter map of a property from its parameters as parsed.
///
/// A name that occurs more than once keeps the values of its last occurrence,
/// in the place of its first.
pub fn parameter_map(list: Vec<(String, Vec<String>)>) -> (m: Vec<(ParameterName, ParameterValue)>)
    ensures
        param_map_view(m@) == spec_parameter_map(param_views(list@)),
{
    let ghost all = param_views(list@);
    let mut list = list;
    let mut m: Vec<(ParameterName, ParameterValue)> = Vec::new();
    let ghost k: int = 0;
    assert(all.take(0) =~= seq![]);
    assert(param_map_view(m@) =~= seq![]);
    while list.len() > 0
        invariant
            0 <= k <= all.len(),
            param_views(list@) == all.skip(k),
            param_map_view(m@) == spec_parameter_map(all.take(k)),
            names_unique(param_map_view(m@)),
        decreases list@.len(),
    {
        let ghost mv = param_map_view(m@);
        let ghost before = list@;
        let p = list.remove(0);
        let ghost pv = (p.0@, views(p.1@));
        assert(param_views(before).len() == before.len());
        assert(param_views(before)[0] == pv);
        assert(all.skip(k)[0] == all[k]);
        assert(list@ =~= before.drop_first());
        assert(param_views(list@) =~= param_views(before).drop_first());
        assert(all.skip(k + 1) =~= all.skip(k).drop_first());
        assert(all.take(k + 1).drop_last() =~= all.take(k));
        assert(all.take(k + 1).last() == all[k]);
        let mut j: usize = 0;
        let len = m.len();
        while j < len && !(m[j].0.0 == p.0)
            invariant
                j <= len == m@.len(),
                forall|i: int| 0 <= i < j ==> #[trigger] m@[i].0.0@ != p.0@,
            decreases len - j,
        {
            j = j + 1;
        }
        proof {
            assert forall|i: int| 0 <= i < j implies #[trigger] mv[i].0 != pv.0 by {
                assert(mv[i].0 == m@[i].0.0@);
            }
        }
        let entry = (ParameterName(p.0), ParameterValue(p.1));
        if j < len {
            assert(mv[j as int].0 == pv.0);
            assert(has_name(mv, pv.0));
            let ghost c = choose|i: int| 0 <= i < mv.len() && #[trigger] mv[i].0 == pv.0;
            assert(c == j);
            m.set(j, entry);
            assert(param_map_view(m@) =~= mv.update(j as int, pv));
            assert forall|a: int, b: int| 0 <= a < b < param_map_view(m@).len() implies #[trigger] param_map_view(m@)[a].0 != #[trigger] param_map_view(m@)[b].0 by {
                assert(mv[a].0 != mv[b].0);
            }
        } else {
            assert(!has_name(mv, pv.0));
            m.push(entry);
            assert(param_map_view(m@) =~= mv.push(pv));
            assert forall|a: int, b: int| 0 <= a < b < param_map_view(m@).len() implies #[trigger] param_map_view(m@)[a].0 != #[trigger] param_map_view(m@)[b].0 by {
                if b == mv.len() {
                    assert(mv[a].0 != pv.0);
                } else {
                    assert(mv[a].0 != mv[b].0);
                }
            }
        }
        proof {
            k = k + 1;
        }
    }
    assert(all.take(k) =~= all);
    m
}

/// What a property line of a calendar stands for.
pub ghost enum PropertyShape {
    /// PRODID, with its decoded text.
    Prodid { text: Seq<char> },
    /// Any other property: its name, its parameter map and its value as written.
    Other { name: Seq<char>, params: Seq<ParamView>, value: Seq<char> },
}

/// `p` is the property that `shape` describes.
pub open spec fn describes(p: Property, shape: PropertyShape) -> bool {
    match shape {
        PropertyShape::Prodid { text } => p.0.0@ == prodid_name() && p.1@.len() == 0 && (
        p.2 matches PropertyValue::Text(t) && t.0@ == text),
        PropertyShape::Other { name, params, value } => p.0.0@ == name && param_map_view(p.1@)
            == params && (p.2 matches PropertyValue::XType(x) && x@ == value),
    }
}

/// One property of a calendar: prodid, or else a property line of any other
/// name (x-prop / iana-prop), whose value is kept as written.
pub open spec fn spec_calprop(s: Seq<char>) -> Option<(PropertyShape, Seq<char>)> {
    match spec_prodid(s) {
        Some((t, r)) => Some((PropertyShape::Prodid { text: t }, r)),
        None => match spec_contentline(s) {
            Some(((n, ps, v), r)) => Some(
                (PropertyShape::Other { name: n, params: spec_parameter_map(ps), value: v }, r),
            ),
            None => None,
        },
    }
}

/// A property takes at least one character.
pub proof fn lemma_calprop_shorter(s: Seq<char>)
    ensures
        spec_calprop(s) matches Some((_, rest)) ==> rest.len() < s.len(),
{
    lemma_contentline_shorter(s);
    if s.len() >= 7 {
        lemma_text_suffix(s.skip(7));
    }
}

/// calprops = *(prodid / version / calscale / method / x-prop / iana-prop)
pub open spec fn spec_calprops(s: Seq<char>) -> (Seq<PropertyShape>, Seq<char>)
    decreases s.len(),
{
    match spec_calprop(s) {
        Some((p, r)) => {
            proof {
                lemma_calprop_shorter(s);
            }
            let (ps, rest) = spec_calprops(r);
            (seq![p] + ps, rest)
        },
        None => (seq![], s),
    }
}

/// The name PRODID, as a string.
fn prodid_string() -> (r: String)
    ensures
        r@ == prodid_name(),
{
    proof {
        reveal_strlit("PRODID");
    }
    let r = "PRODID".to_owned();
    assert(r@ =~= prodid_name());
    r
}

/// prodid = "PRODID" ":" pidvalue CRLF
///
/// The property has no parameters, and its value is the decoded text.
pub fn prodid(input: &str) -> (r: Result<(&str, Property), ParseError>)
    ensures
        match r {
            Ok((rest, p)) => spec_prodid(input@) matches Some((t, after)) && after == rest@
                && describes(p, PropertyShape::Prodid { text: t }),
            Err(e) => spec_prodid(input@) is None && e.reports(input@, Rule::Prodid),
        },
{
    let fail = ParseError { input, rule: Rule::Prodid };
    let len = input.unicode_len();
    if len < 7 {
        return Err(fail);
    }
    let head = input.get_char(0) == 'P' && input.get_char(1) == 'R' && input.get_char(2) == 'O'
        && input.get_char(3) == 'D' && input.get_char(4) == 'I' && input.get_char(5) == 'D';
    assert(head == (input@.take(6) =~= prodid_name())) by {
        if input@.take(6) =~= prodid_name() {
            assert(input@[0] == input@.take(6)[0] && input@[5] == input@.take(6)[5]);
            assert(input@[1] == input@.take(6)[1] && input@[2] == input@.take(6)[2]);
            assert(input@[3] == input@.take(6)[3] && input@[4] == input@.take(6)[4]);
        }
    }
    if !head || input.get_char(6) != ':' {
        return Err(fail);
    }
    let after = input.substring_char(7, len);
    let (r, t) = match text(after) {
        Ok(x) => x,
        Err(_) => {
            return Err(fail);
        },
    };
    match line_ending(r) {
        Ok(rest) => Ok((rest, Property(PropertyName(prodid_string()), Vec::new(), PropertyValue::Text(t)))),
        Err(_) => Err(fail),
    }
}

/// One property line: prodid, or any other property.
fn calprop<'a>(input: &'a str) -> (r: Option<(&'a str, Property)>)
    ensures
        match r {
            Some((rest, p)) => spec_calprop(input@) matches Some((shape, after)) && after == rest@
                && describes(p, shape),
            None => spec_calprop(input@) is None,
        },
{
    match prodid(input) {
        Ok((rest, p)) => Some((rest, p)),
        Err(_) => match contentline(input) {
            Ok((rest, (n, ps, v))) => {
                let params = parameter_map(ps);
                Some((rest, Property(PropertyName(n), params, PropertyValue::XType(v))))
            },
            Err(_) => None,
        },
    }
}

/// calprops = *(prodid / version / calscale / method / x-prop / iana-prop)
///
/// Never fails: takes the property lines at the start of `input`, in order, and
/// stops before the first line that is none. PRODID gets its text decoded; the
/// others keep their value as written, with their parameters merged by name.
pub fn calprops(input: &str) -> (r: Result<(&str, Vec<Property>), ParseError>)
    ensures
        match r {
            Ok((rest, props)) => spec_calprops(input@).1 == rest@ && props@.len()
                == spec_calprops(input@).0.len() && forall|i: int|
                0 <= i < props@.len() ==> describes(#[trigger] props@[i], spec_calprops(input@).0[i]),
            Err(_) => false,
        },
{
    let mut props: Vec<Property> = Vec::new();
    let mut cur = input;
    loop
        invariant
            spec_calprops(input@).1 == spec_calprops(cur@).1,
            spec_calprops(input@).0.len() == props@.len() + spec_calprops(cur@).0.len(),
            forall|i: int|
                0 <= i < props@.len() ==> describes(#[trigger] props@[i], spec_calprops(input@).0[i]),
            forall|i: int|
                0 <= i < spec_calprops(cur@).0.len() ==> spec_calprops(input@).0[props@.len() + i]
                    == #[trigger] spec_calprops(cur@).0[i],
        ensures
            spec_calprops(input@).1 == cur@,
            spec_calprops(input@).0.len() == props@.len(),
            forall|i: int|
                0 <= i < props@.len() ==> describes(#[trigger] props@[i], spec_calprops(input@).0[i]),
        decreases cur@.len(),
    {
        match calprop(cur) {
            Some((next, p)) => {
                proof {
                    lemma_calprop_shorter(cur@);
                }
                let ghost n = props@.len();
                assert(spec_calprops(cur@).0[0] == (spec_calprop(cur@)->0).0);
                assert(spec_calprops(input@).0[n as int] == spec_calprops(cur@).0[0]);
                props.push(p);
                assert forall|i: int| 0 <= i < spec_calprops(next@).0.len() implies spec_calprops(input@).0[props@.len() + i]
                    == #[trigger] spec_calprops(next@).0[i] by {
                    assert(spec_calprops(cur@).0[i + 1] == spec_calprops(next@).0[i]);
                }
                cur = next;
            },
            None => {
                break;
            },
        }
    }
    Ok((cur, props))
}

} // verus!
