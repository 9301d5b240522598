use vstd::prelude::*;

use crate::chars::{
    in_class, is_digit, is_qsafe_char, is_tsafe_char, is_value_char, lemma_run_len,
    lemma_run_len_bounds, CharClass,
};
use crate::line::{spec_value, ParamView};
use crate::param::{spec_param, spec_quoted_string};
use crate::property::{names_unique, put_param, spec_parameter_map, has_name};
use crate::values::{spec_date_value, spec_text, spec_text_item};

verus! {

/// date-value accepts any four digits of a year, two of a month and two of a
/// day, whatever their numbers, and gives them back unchanged.
pub proof fn date_value_accepts_any_digits(y: Seq<char>, m: Seq<char>, d: Seq<char>)
    requires
        y.len() == 4,
        m.len() == 2,
        d.len() == 2,
        forall|i: int| 0 <= i < 4 ==> is_digit(#[trigger] y[i]),
        forall|i: int| 0 <= i < 2 ==> is_digit(#[trigger] m[i]),
        forall|i: int| 0 <= i < 2 ==> is_digit(#[trigger] d[i]),
    ensures
        spec_date_value(y + m + d) == Some((y + m + d, Seq::<char>::empty())),
{
    let s = y + m + d;
    assert forall|i: int| 0 <= i < 8 implies is_digit(#[trigger] s[i]) by {
        if i < 4 {
            assert(s[i] == y[i]);
        } else if i < 6 {
            assert(s[i] == m[i - 4]);
        } else {
            assert(s[i] == d[i - 6]);
        }
    }
    assert(s.take(8) =~= s);
    assert(s.skip(8) =~= Seq::<char>::empty());
}

/// A string of QSAFE-CHARs put between double quotes is read back as itself by
/// quoted-string, with nothing left over.
pub proof fn quoted_string_round_trip(s: Seq<char>)
    requires
        forall|i: int| 0 <= i < s.len() ==> is_qsafe_char(#[trigger] s[i]),
    ensures
        spec_quoted_string(seq!['"'] + s + seq!['"']) == Some((s, Seq::<char>::empty())),
{
    let q = seq!['"'] + s + seq!['"'];
    let t = q.skip(1);
    assert(t =~= s + seq!['"']);
    assert forall|i: int| 0 <= i < s.len() implies in_class(CharClass::Qsafe, #[trigger] t[i]) by {
        assert(t[i] == s[i]);
    }
    assert(t[s.len() as int] == '"');
    lemma_run_len(t, CharClass::Qsafe, s.len() as int);
    assert(t.take(s.len() as int) =~= s);
    assert(t.skip(s.len() as int + 1) =~= Seq::<char>::empty());
}

/// Text made of TSAFE-CHARs only (so with no ":", DQUOTE or backslash) decodes
/// to itself, with nothing left over.
pub proof fn text_round_trip(s: Seq<char>)
    requires
        forall|i: int| 0 <= i < s.len() ==> is_tsafe_char(#[trigger] s[i]),
    ensures
        spec_text(s) == (s, Seq::<char>::empty()),
    decreases s.len(),
{
    if s.len() > 0 {
        let r = s.drop_first();
        assert(spec_text_item(s) == Some((s[0], r)));
        assert forall|i: int| 0 <= i < r.len() implies is_tsafe_char(#[trigger] r[i]) by {
            assert(r[i] == s[i + 1]);
        }
        text_round_trip(r);
        assert(seq![s[0]] + r =~= s);
    } else {
        assert(spec_text_item(s) is None);
    }
}

/// The value of a content line holds no control character but the tab.
pub proof fn value_has_no_control(s: Seq<char>)
    ensures
        forall|i: int| 0 <= i < spec_value(s).0.len() ==> is_value_char(#[trigger] spec_value(s).0[i]),
{
    lemma_run_len_bounds(s, CharClass::Value);
    assert forall|i: int| 0 <= i < spec_value(s).0.len() implies is_value_char(#[trigger] spec_value(s).0[i]) by {
        assert(spec_value(s).0[i] == s[i]);
        assert(in_class(CharClass::Value, s[i]));
    }
}

/// Every parameter has at least one value; the first may be empty.
pub proof fn param_has_a_value(s: Seq<char>)
    ensures
        spec_param(s) matches Some(((_, vs), _)) ==> vs.len() >= 1,
{
}

/// The values of the entry named `n` in a list of parameters, looked for from
/// the end: in a list as parsed, those of the last occurrence of `n`.
pub open spec fn lookup(m: Seq<ParamView>, n: Seq<char>) -> Option<Seq<Seq<char>>>
    decreases m.len(),
{
    if m.len() == 0 {
        None
    } else if m.last().0 == n {
        Some(m.last().1)
    } else {
        lookup(m.drop_last(), n)
    }
}

proof fn lemma_lookup_update(m: Seq<ParamView>, i: int, p: ParamView, n: Seq<char>)
    requires
        0 <= i < m.len(),
        m[i].0 == p.0,
        names_unique(m),
    ensures
        lookup(m.update(i, p), n) == if n == p.0 {
            Some(p.1)
        } else {
            lookup(m, n)
        },
    decreases m.len(),
{
    let u = m.update(i, p);
    if i < m.len() - 1 {
        assert(m[i].0 != m[m.len() - 1].0);
        assert(u.last() == m.last());
        assert(u.drop_last() =~= m.drop_last().update(i, p));
        if m.last().0 != n {
            assert forall|a: int, b: int| 0 <= a < b < m.drop_last().len() implies #[trigger] m.drop_last()[a].0
                != #[trigger] m.drop_last()[b].0 by {
                assert(m[a].0 != m[b].0);
            }
            lemma_lookup_update(m.drop_last(), i, p, n);
        }
    } else {
        assert(u.drop_last() =~= m.drop_last());
    }
}

proof fn lemma_lookup_put(m: Seq<ParamView>, p: ParamView, n: Seq<char>)
    requires
        names_unique(m),
    ensures
        names_unique(put_param(m, p)),
        lookup(put_param(m, p), n) == if n == p.0 {
            Some(p.1)
        } else {
            lookup(m, n)
        },
{
    let r = put_param(m, p);
    if has_name(m, p.0) {
        let i = choose|i: int| 0 <= i < m.len() && #[trigger] m[i].0 == p.0;
        lemma_lookup_update(m, i, p, n);
        assert forall|a: int, b: int| 0 <= a < b < r.len() implies #[trigger] r[a].0 != #[trigger] r[b].0 by {
            assert(m[a].0 != m[b].0);
        }
    } else {
        assert(r.drop_last() =~= m);
        assert forall|a: int, b: int| 0 <= a < b < r.len() implies #[trigger] r[a].0 != #[trigger] r[b].0 by {
            if b == m.len() {
                assert(r[a] == m[a]);
                assert(!(m[a].0 == p.0));
            } else {
                assert(m[a].0 != m[b].0);
            }
        }
    }
}

/// The parameter map of a list holds each name once, and for each name the
/// values of its last occurrence in the list.
pub proof fn parameter_map_last_wins(list: Seq<ParamView>)
    ensures
        names_unique(spec_parameter_map(list)),
        forall|n: Seq<char>| #[trigger] lookup(spec_parameter_map(list), n) == lookup(list, n),
    decreases list.len(),
{
    if list.len() > 0 {
        parameter_map_last_wins(list.drop_last());
        let m = spec_parameter_map(list.drop_last());
        assert forall|n: Seq<char>| #[trigger] lookup(spec_parameter_map(list), n) == lookup(list, n) by {
            lemma_lookup_put(m, list.last(), n);
        }
        lemma_lookup_put(m, list.last(), Seq::<char>::empty());
    }
}

} // verus!
