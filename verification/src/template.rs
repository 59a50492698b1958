//! Plugin script templates: `{{key}}` placeholders replaced by package parameters.
use vstd::prelude::*;
use crate::strmap::StrMap;
use crate::text::{chars_of, owned, push_char, push_str};

verus! {

/// `s` with every occurrence of `pat` replaced by `to`, matches taken from the
/// left and never overlapping (for a non-empty `pat`; an empty one leaves `s`).
pub open spec fn replace_spec(s: Seq<char>, pat: Seq<char>, to: Seq<char>) -> Seq<char>
    decreases s.len(),
{
    if s.len() == 0 || pat.len() == 0 {
        s
    } else if s.len() >= pat.len() && s.take(pat.len() as int) == pat {
        to + replace_spec(s.skip(pat.len() as int), pat, to)
    } else {
        seq![s[0]] + replace_spec(s.skip(1), pat, to)
    }
}

fn matches_at(s: &Vec<char>, i: usize, pat: &Vec<char>) -> (b: bool)
    requires
        i <= s@.len(),
    ensures
        b == (s@.skip(i as int).len() >= pat@.len() && s@.skip(i as int).take(pat@.len() as int) == pat@),
{
    if s.len() - i < pat.len() {
        return false;
    }
    let mut k: usize = 0;
    while k < pat.len()
        invariant
            i + pat@.len() <= s@.len(),
            k <= pat@.len(),
            forall|j: int| 0 <= j < k ==> s@[i + j] == pat@[j],
        decreases pat.len() - k,
    {
        let n = s.len();
        assert(i + k < n);
        if s[i + k] != pat[k] {
            assert(s@.skip(i as int).take(pat@.len() as int)[k as int] != pat@[k as int]);
            return false;
        }
        k = k + 1;
    }
    assert(s@.skip(i as int).take(pat@.len() as int) =~= pat@);
    true
}

/// `s` with every occurrence of the non-empty `pat` replaced by `to`.
pub fn replace_all(s: &str, pat: &str, to: &str) -> (r: String)
    requires
        pat@.len() > 0,
    ensures
        r@ == replace_spec(s@, pat@, to@),
{
    let cs = chars_of(s);
    let ps = chars_of(pat);
    let mut r = String::new();
    let mut i: usize = 0;
    assert(s@.skip(0) =~= s@);
    assert(r@ + s@ =~= s@);
    while i < cs.len()
        invariant
            cs@ == s@,
            ps@ == pat@,
            ps@.len() > 0,
            i <= cs@.len(),
            replace_spec(s@, pat@, to@) == r@ + replace_spec(s@.skip(i as int), pat@, to@),
        decreases cs.len() - i,
    {
        let ghost rest = s@.skip(i as int);
        if matches_at(&cs, i, &ps) {
            push_str(&mut r, to);
            proof {
                assert(rest.skip(pat@.len() as int) =~= s@.skip(i + pat@.len()));
            }
            i = i + ps.len();
        } else {
            push_char(&mut r, cs[i]);
            proof {
                assert(rest.skip(1) =~= s@.skip(i + 1));
                assert(rest[0] == cs@[i as int]);
                assert(replace_spec(rest, pat@, to@) == seq![rest[0]] + replace_spec(rest.skip(1), pat@, to@));
            }
            i = i + 1;
        }
    }
    proof {
        assert(s@.skip(i as int).len() == 0);
        assert(r@ + s@.skip(i as int) =~= r@);
    }
    r
}

/// The placeholder written for the parameter `key`.
pub open spec fn placeholder(key: Seq<char>) -> Seq<char> {
    "{{"@ + key + "}}"@
}

/// The template after substituting each parameter in turn, in name order.
pub open spec fn render_spec(template: Seq<char>, params: Seq<(Seq<char>, String)>) -> Seq<char>
    decreases params.len(),
{
    if params.len() == 0 {
        template
    } else {
        replace_spec(render_spec(template, params.drop_last()), placeholder(params.last().0), params.last().1@)
    }
}

/// Renders a plugin template: every `{{key}}` becomes the value of the parameter `key`.
pub fn render_template(template: &str, params: &StrMap<String>) -> (r: String)
    ensures
        r@ == render_spec(template@, params@),
{
    let mut result = owned(template);
    let n = params.len();
    let mut i: usize = 0;
    while i < n
        invariant
            n == params@.len(),
            i <= n,
            result@ == render_spec(template@, params@.take(i as int)),
        decreases n - i,
    {
        let (key, value) = params.entry(i);
        let mut ph = owned("{{");
        push_str(&mut ph, key.as_str());
        push_str(&mut ph, "}}");
        proof {
            reveal_strlit("{{");
        }
        result = replace_all(result.as_str(), ph.as_str(), value.as_str());
        proof {
            assert(params@.take(i + 1).drop_last() =~= params@.take(i as int));
        }
        i = i + 1;
    }
    assert(params@.take(n as int) =~= params@);
    result
}

/// Replacing a pattern by itself leaves any text unchanged.
pub proof fn law_replace_with_itself(s: Seq<char>, pat: Seq<char>)
    ensures
        replace_spec(s, pat, pat) == s,
    decreases s.len(),
{
    if s.len() == 0 || pat.len() == 0 {
    } else if s.len() >= pat.len() && s.take(pat.len() as int) == pat {
        law_replace_with_itself(s.skip(pat.len() as int), pat);
        assert(pat + s.skip(pat.len() as int) =~= s);
    } else {
        law_replace_with_itself(s.skip(1), pat);
        assert(seq![s[0]] + s.skip(1) =~= s);
    }
}

/// A text without the placeholder's first character is left unchanged by the replacement.
pub proof fn law_replace_absent(s: Seq<char>, pat: Seq<char>, to: Seq<char>)
    requires
        pat.len() > 0,
        !s.contains(pat[0]),
    ensures
        replace_spec(s, pat, to) == s,
    decreases s.len(),
{
    if s.len() > 0 {
        assert(s[0] != pat[0]);
        if s.len() >= pat.len() && s.take(pat.len() as int) == pat {
            assert(s.take(pat.len() as int)[0] == s[0]);
        }
        assert forall|k: int| 0 <= k < s.skip(1).len() implies s.skip(1)[k] != pat[0] by {
            assert(s.skip(1)[k] == s[k + 1]);
            assert(s.contains(s[k + 1]));
        }
        law_replace_absent(s.skip(1), pat, to);
        assert(seq![s[0]] + s.skip(1) =~= s);
    }
}

} // verus!
