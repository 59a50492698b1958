//! The stateless update check: comparing the latest release tag with the
//! running version and wording the notice.
use vstd::prelude::*;
use crate::text::{chars_of, owned, push_str, push_char};

verus! {

/// The version of this build.
pub const VERSION: &'static str = "0.1.0";

/// Where users are pointed to update.
pub const UPDATE_URL: &'static str = "https://github.com/hainet50b/homeos";

/// The release API queried for the latest tag.
pub const RELEASES_URL: &'static str = "https://api.github.com/repos/hainet50b/homeos/releases/latest";

/// How long the release query may take, in milliseconds.
pub const FETCH_TIMEOUT_MS: u64 = 1500;

/// The environment variable whose non-empty value skips the check.
pub const SKIP_ENV_VAR: &'static str = "HOMEOS_SKIP_UPDATE_CHECK";

/// `s` cut at every `sep`, as `str::split` does (an empty string gives one empty part).
pub open spec fn split_on(s: Seq<char>, sep: char) -> Seq<Seq<char>>
    decreases s.len(),
{
    if s.len() == 0 {
        seq![Seq::<char>::empty()]
    } else if s.last() == sep {
        split_on(s.drop_last(), sep).push(Seq::<char>::empty())
    } else {
        let p = split_on(s.drop_last(), sep);
        p.update(p.len() - 1, p.last().push(s.last()))
    }
}

proof fn lemma_split_nonempty(s: Seq<char>, sep: char)
    ensures
        split_on(s, sep).len() >= 1,
    decreases s.len(),
{
    if s.len() > 0 {
        lemma_split_nonempty(s.drop_last(), sep);
    }
}

/// Whether `c` is an ASCII decimal digit.
pub open spec fn is_digit(c: char) -> bool {
    '0' <= c <= '9'
}

/// The value of a string of decimal digits.
pub open spec fn digits_value(d: Seq<char>) -> nat
    decreases d.len(),
{
    if d.len() == 0 {
        0
    } else {
        digits_value(d.drop_last()) * 10 + ((d.last() as int) - ('0' as int)) as nat
    }
}

/// The characters after an optional leading `+`.
pub open spec fn unsigned_digits(s: Seq<char>) -> Seq<char> {
    if s.len() > 0 && s[0] == '+' {
        s.drop_first()
    } else {
        s
    }
}

/// Every character of `d` is a decimal digit.
pub open spec fn all_digits(d: Seq<char>) -> bool {
    forall|i: int| 0 <= i < d.len() ==> is_digit(#[trigger] d[i])
}

/// What `u64::from_str` returns for `s`: an optional `+`, then one or more
/// decimal digits whose value fits in a `u64`; anything else fails.
pub open spec fn parse_u64_spec(s: Seq<char>) -> Option<u64> {
    let d = unsigned_digits(s);
    if d.len() > 0 && all_digits(d) && digits_value(d) <= u64::MAX {
        Some(digits_value(d) as u64)
    } else {
        None
    }
}

proof fn lemma_digits_value_monotone(d: Seq<char>, i: int)
    requires
        0 <= i <= d.len(),
        forall|k: int| 0 <= k < d.len() ==> is_digit(#[trigger] d[k]),
    ensures
        digits_value(d.take(i)) <= digits_value(d),
    decreases d.len() - i,
{
    if i < d.len() {
        lemma_digits_value_monotone(d, i + 1);
        assert(d.take(i + 1).drop_last() =~= d.take(i));
        assert(d.take(i + 1).last() == d[i]);
    } else {
        assert(d.take(i) =~= d);
    }
}

proof fn lemma_digits_step(d: Seq<char>, k: int)
    requires
        0 <= k < d.len(),
        is_digit(d[k]),
    ensures
        digits_value(d.take(k + 1)) == digits_value(d.take(k)) * 10 + ((d[k] as int) - ('0' as int)),
{
    assert(d.take(k + 1).drop_last() =~= d.take(k));
    assert(d.take(k + 1).last() == d[k]);
}

/// Parses a decimal `u64` exactly as `u64::from_str` does.
pub fn parse_u64(s: &[char]) -> (r: Option<u64>)
    ensures
        r == parse_u64_spec(s@),
{
    let start: usize = if s.len() > 0 && s[0] == '+' { 1 } else { 0 };
    let ghost d = unsigned_digits(s@);
    assert(d =~= s@.subrange(start as int, s@.len() as int));
    assert(start == 1 <==> (s@.len() > 0 && s@[0] == '+'));
    if start == s.len() {
        return None;
    }
    let mut v: u64 = 0;
    let mut i: usize = start;
    while i < s.len()
        invariant
            start <= i <= s@.len(),
            start <= 1,
            start == 1 <==> (s@.len() > 0 && s@[0] == '+'),
            d == s@.subrange(start as int, s@.len() as int),
            d == unsigned_digits(s@),
            forall|k: int| start <= k < i ==> is_digit(#[trigger] s@[k]),
            v as nat == digits_value(d.take(i - start)),
        decreases s.len() - i,
    {
        let c = s[i];
        let ghost k: int = i - start;
        assert(d.len() == s@.len() - start);
        assert(d[k] == s@[start + k]);
        if c < '0' || c > '9' {
            assert(!is_digit(d[k]));
            return None;
        }
        let digit: u64 = (c as u64) - ('0' as u64);
        assert(digit as int == (c as int) - ('0' as int));
        assert(is_digit(s@[i as int]));
        proof {
            lemma_digits_step(d, k);
        }
        match v.checked_mul(10) {
            None => {
                assert(digits_value(d.take(i - start + 1)) > u64::MAX);
                return overflow_or_invalid(s, start, i);
            },
            Some(m) => match m.checked_add(digit) {
                None => {
                    assert(digits_value(d.take(i - start + 1)) > u64::MAX);
                    return overflow_or_invalid(s, start, i);
                },
                Some(n) => {
                    v = n;
                },
            },
        }
        i = i + 1;
    }
    proof {
        assert(d.take(d.len() as int) =~= d);
    }
    Some(v)
}

/// After an overflow at position `i` the parse fails: either a later character
/// is not a digit, or all are and the value is too large.
fn overflow_or_invalid(s: &[char], start: usize, i: usize) -> (r: Option<u64>)
    requires
        start < s@.len(),
        start <= i < s@.len(),
        forall|k: int| start <= k < i ==> is_digit(#[trigger] s@[k]),
        is_digit(s@[i as int]),
        digits_value(s@.subrange(start as int, s@.len() as int).take(i - start + 1)) > u64::MAX,
        start == 1 <==> (s@.len() > 0 && s@[0] == '+'),
        start <= 1,
    ensures
        r == parse_u64_spec(s@),
        r is None,
{
    let ghost d = s@.subrange(start as int, s@.len() as int);
    assert(start == 0 ==> d =~= s@);
    assert(start == 1 ==> d =~= s@.drop_first());
    assert(d == unsigned_digits(s@));
    let n = s.len();
    let mut j: usize = i + 1;
    while j < n
        invariant
            n == s@.len(),
            start < s@.len(),
            start <= i,
            i < j <= s@.len(),
            d == s@.subrange(start as int, s@.len() as int),
            d == unsigned_digits(s@),
            forall|k: int| start <= k < j ==> is_digit(#[trigger] s@[k]),
        decreases n - j,
    {
        if s[j] < '0' || s[j] > '9' {
            proof {
                let k: int = j - start;
                assert(d.len() == s@.len() - start);
                assert(0 <= k < d.len());
                assert(d[k] == s@[start + k]);
                assert(!is_digit(d[k]));
            }
            return None;
        }
        j = j + 1;
    }
    proof {
        assert forall|k: int| 0 <= k < d.len() implies is_digit(#[trigger] d[k]) by {
            assert(d[k] == s@[k + start]);
        }
        lemma_digits_value_monotone(d, i - start + 1);
    }
    None
}

/// The release triple of a `vX.Y.Z` tag, or `None` for anything else.
pub open spec fn parse_tag_spec(tag: Seq<char>) -> Option<(u64, u64, u64)> {
    if tag.len() > 0 && tag[0] == 'v' {
        let parts = split_on(tag.drop_first(), '.');
        if parts.len() == 3 && parse_u64_spec(parts[0]) is Some && parse_u64_spec(parts[1]) is Some
            && parse_u64_spec(parts[2]) is Some {
            Some((parse_u64_spec(parts[0])->0, parse_u64_spec(parts[1])->0, parse_u64_spec(parts[2])->0))
        } else {
            None
        }
    } else {
        None
    }
}

/// Splits `s` at every `sep`.
fn split_chars(s: &[char], sep: char) -> (r: Vec<Vec<char>>)
    ensures
        r@.len() == split_on(s@, sep).len(),
        forall|i: int| 0 <= i < r@.len() ==> (#[trigger] r@[i])@ == split_on(s@, sep)[i],
{
    let mut parts: Vec<Vec<char>> = Vec::new();
    parts.push(Vec::new());
    let mut i: usize = 0;
    while i < s.len()
        invariant
            i <= s@.len(),
            parts@.len() == split_on(s@.take(i as int), sep).len(),
            forall|k: int| 0 <= k < parts@.len() ==> (#[trigger] parts@[k])@ == split_on(s@.take(i as int), sep)[k],
        decreases s.len() - i,
    {
        proof {
            assert(s@.take(i + 1).drop_last() =~= s@.take(i as int));
            assert(s@.take(i + 1).last() == s@[i as int]);
            lemma_split_nonempty(s@.take(i as int), sep);
        }
        if s[i] == sep {
            parts.push(Vec::new());
        } else {
            let last = parts.len() - 1;
            let mut p = parts.remove(last);
            p.push(s[i]);
            parts.push(p);
        }
        proof {
            let sp = split_on(s@.take(i + 1), sep);
            assert forall|k: int| 0 <= k < parts@.len() implies (#[trigger] parts@[k])@ == sp[k] by {}
        }
        i = i + 1;
    }
    proof {
        assert(s@.take(s@.len() as int) =~= s@);
    }
    parts
}

/// Parses a `vX.Y.Z` release tag into its numeric triple.
pub fn parse_tag(tag: &str) -> (r: Option<(u64, u64, u64)>)
    ensures
        r == parse_tag_spec(tag@),
{
    let cs = chars_of(tag);
    if cs.len() == 0 || cs[0] != 'v' {
        return None;
    }
    let mut rest: Vec<char> = Vec::new();
    let mut i: usize = 1;
    while i < cs.len()
        invariant
            1 <= i <= cs@.len(),
            rest@ == cs@.subrange(1, i as int),
        decreases cs.len() - i,
    {
        rest.push(cs[i]);
        assert(rest@ =~= cs@.subrange(1, i + 1));
        i = i + 1;
    }
    assert(rest@ =~= tag@.drop_first());
    let parts = split_chars(rest.as_slice(), '.');
    if parts.len() != 3 {
        return None;
    }
    let major = parse_u64(parts[0].as_slice());
    let minor = parse_u64(parts[1].as_slice());
    let patch = parse_u64(parts[2].as_slice());
    match (major, minor, patch) {
        (Some(a), Some(b), Some(c)) => Some((a, b, c)),
        _ => None,
    }
}

/// `a` is a strictly later release than `b`.
pub open spec fn triple_gt(a: (u64, u64, u64), b: (u64, u64, u64)) -> bool {
    a.0 > b.0 || (a.0 == b.0 && (a.1 > b.1 || (a.1 == b.1 && a.2 > b.2)))
}

/// Whether `latest` names a strictly newer release than `current`; an
/// unparseable tag on either side gives `false`.
pub open spec fn update_available(latest: Seq<char>, current: Seq<char>) -> bool {
    match (parse_tag_spec(latest), parse_tag_spec(current)) {
        (Some(l), Some(c)) => triple_gt(l, c),
        _ => false,
    }
}

/// True when `latest` is a strictly newer release than `current`.
pub fn is_update_available(latest: &str, current: &str) -> (b: bool)
    ensures
        b == update_available(latest@, current@),
{
    match (parse_tag(latest), parse_tag(current)) {
        (Some(l), Some(c)) => l.0 > c.0 || (l.0 == c.0 && (l.1 > c.1 || (l.1 == c.1 && l.2 > c.2))),
        _ => false,
    }
}

/// The tag of the running build: `v` followed by its version.
pub fn current_tag() -> (r: String)
    ensures
        r@ == "v"@ + VERSION@,
{
    let mut r = owned("v");
    push_str(&mut r, VERSION);
    r
}

/// The notice line for an available update.
pub open spec fn notice_line(latest: Seq<char>) -> Seq<char> {
    "homeos: "@ + latest + " available — update at "@ + UPDATE_URL@
}

/// The notice to emit, if any, given the tag the release query returned
/// (`None` when it failed) and the running tag.
pub fn update_notice(fetched: Option<&str>, current: &str) -> (r: Option<String>)
    ensures
        r is Some <==> (fetched matches Some(l) && update_available(l@, current@)),
        r matches Some(n) ==> n@ == notice_line(fetched->0@),
{
    match fetched {
        None => None,
        Some(latest) => {
            if is_update_available(latest, current) {
                let mut n = owned("homeos: ");
                push_str(&mut n, latest);
                push_str(&mut n, " available — update at ");
                push_str(&mut n, UPDATE_URL);
                Some(n)
            } else {
                None
            }
        },
    }
}

/// Whether the skip variable's value (if set) asks to skip the check: any non-empty value does.
pub fn skip_requested(value: Option<&str>) -> (b: bool)
    ensures
        b == (value matches Some(v) && v@.len() > 0),
{
    match value {
        Some(v) => chars_of(v).len() > 0,
        None => false,
    }
}

/// A release is never newer than itself: the running release never announces itself.
pub proof fn law_same_tag_is_not_newer(tag: Seq<char>)
    ensures
        !update_available(tag, tag),
{
}

/// Of two releases at most one is newer than the other: an older fetched tag is silent.
pub proof fn law_newer_is_asymmetric(a: Seq<char>, b: Seq<char>)
    ensures
        update_available(a, b) ==> !update_available(b, a),
{
}

/// Newer than a newer release is newer still.
pub proof fn law_newer_is_transitive(a: Seq<char>, b: Seq<char>, c: Seq<char>)
    ensures
        update_available(a, b) && update_available(b, c) ==> update_available(a, c),
{
}

/// The update notice for the running build, given the tag the release query
/// returned (`None` when it failed): present only for a strictly newer release.
pub fn check_and_notify_to(fetched: Option<&str>) -> (r: Option<String>)
    ensures
        r is Some <==> (fetched matches Some(l) && update_available(l@, "v"@ + VERSION@)),
        r matches Some(n) ==> n@ == notice_line(fetched->0@),
{
    let current = current_tag();
    update_notice(fetched, current.as_str())
}

/// The update check as the command line runs it: skipped when the skip
/// variable holds a non-empty value (then no release query is made, and
/// `fetched` is not consulted), else the notice for the fetched tag.
pub fn check_and_notify_to_writer(skip_value: Option<&str>, fetched: Option<&str>) -> (r: Option<String>)
    ensures
        (skip_value matches Some(v) && v@.len() > 0) ==> r is None,
        !(skip_value matches Some(v) && v@.len() > 0) ==> {
            &&& r is Some <==> (fetched matches Some(l) && update_available(l@, "v"@ + VERSION@))
            &&& r matches Some(n) ==> n@ == notice_line(fetched->0@)
        },
{
    if skip_requested(skip_value) {
        None
    } else {
        check_and_notify_to(fetched)
    }
}

proof fn lemma_digit_char(d: nat)
    requires
        d < 10,
    ensures
        is_digit(crate::text::digit_char(d)),
        (crate::text::digit_char(d) as int) - ('0' as int) == d,
{
}

/// A number written in decimal is a non-empty run of digits whose value is the number.
proof fn lemma_decimal_digits(n: nat)
    ensures
        crate::text::decimal(n).len() > 0,
        all_digits(crate::text::decimal(n)),
        digits_value(crate::text::decimal(n)) == n,
    decreases n,
{
    let d = crate::text::decimal(n);
    if n < 10 {
        lemma_digit_char(n);
        assert(d.drop_last() =~= Seq::<char>::empty());
        assert(d.last() == crate::text::digit_char(n));
        assert(digits_value(d.drop_last()) == 0);
        assert(digits_value(d) == digits_value(d.drop_last()) * 10 + ((d.last() as int) - ('0' as int)) as nat);
    } else {
        lemma_decimal_digits(n / 10);
        lemma_digit_char(n % 10);
        let p = crate::text::decimal(n / 10);
        assert(d == p.push(crate::text::digit_char(n % 10)));
        assert(d.drop_last() =~= p);
        assert forall|i: int| 0 <= i < d.len() implies is_digit(#[trigger] d[i]) by {
            if i < p.len() {
                assert(d[i] == p[i]);
            }
        }
        assert(d.last() == crate::text::digit_char(n % 10));
        assert(digits_value(d) == digits_value(d.drop_last()) * 10 + ((d.last() as int) - ('0' as int)) as nat);
        assert(digits_value(d) == (n / 10) * 10 + n % 10);
        assert((n / 10) * 10 + n % 10 == n) by (nonlinear_arith);
    }
}

/// A number written in decimal reads back as itself.
proof fn lemma_parse_decimal(n: u64)
    ensures
        parse_u64_spec(crate::text::decimal(n as nat)) == Some(n),
{
    lemma_decimal_digits(n as nat);
    let d = crate::text::decimal(n as nat);
    assert(is_digit(d[0]));
    assert(unsigned_digits(d) == d);
}

/// Cutting `x`, a separator and `y` gives the parts of `x` followed by those of `y`.
proof fn lemma_split_concat(x: Seq<char>, y: Seq<char>, sep: char)
    ensures
        split_on(x.push(sep) + y, sep) == split_on(x, sep) + split_on(y, sep),
    decreases y.len(),
{
    let xs = x.push(sep);
    if y.len() == 0 {
        assert(xs + y =~= xs);
        assert(xs.drop_last() =~= x);
        assert(split_on(xs, sep) =~= split_on(x, sep) + split_on(y, sep));
    } else {
        let y1 = y.drop_last();
        let c = y.last();
        lemma_split_concat(x, y1, sep);
        lemma_split_nonempty(y1, sep);
        lemma_split_nonempty(x, sep);
        assert((xs + y).drop_last() =~= xs + y1);
        assert((xs + y).last() == c);
        let l = split_on(x, sep);
        let r1 = split_on(y1, sep);
        if c == sep {
            assert(split_on(xs + y, sep) =~= (l + r1).push(Seq::<char>::empty()));
            assert(split_on(y, sep) =~= r1.push(Seq::<char>::empty()));
            assert((l + r1).push(Seq::<char>::empty()) =~= l + r1.push(Seq::<char>::empty()));
        } else {
            let p = l + r1;
            assert(p.last() == r1.last());
            assert(split_on(y, sep) =~= r1.update(r1.len() - 1, r1.last().push(c)));
            assert(p.update(p.len() - 1, p.last().push(c)) =~= l + r1.update(r1.len() - 1, r1.last().push(c)));
        }
    }
}

/// A text without the separator is one part.
proof fn lemma_split_single(x: Seq<char>, sep: char)
    requires
        !x.contains(sep),
    ensures
        split_on(x, sep) == seq![x],
    decreases x.len(),
{
    if x.len() > 0 {
        assert(x.last() != sep) by {
            assert(x[x.len() - 1] == x.last());
        }
        assert forall|k: int| 0 <= k < x.drop_last().len() implies x.drop_last()[k] != sep by {
            assert(x.drop_last()[k] == x[k]);
            assert(x.contains(x[k]));
        }
        lemma_split_single(x.drop_last(), sep);
        assert(x.drop_last().push(x.last()) =~= x);
        assert(seq![x.drop_last()].update(0, x.drop_last().push(x.last())) =~= seq![x]);
    } else {
        assert(x =~= Seq::<char>::empty());
    }
}

/// A number written in decimal contains no separator.
proof fn lemma_decimal_has_no_dot(n: nat)
    ensures
        !crate::text::decimal(n).contains('.'),
{
    lemma_decimal_digits(n);
    let d = crate::text::decimal(n);
    if d.contains('.') {
        let k = choose|k: int| 0 <= k < d.len() && d[k] == '.';
        assert(is_digit(d[k]));
    }
}

/// A release tag written as `v<major>.<minor>.<patch>` reads back as that triple.
pub proof fn law_tag_roundtrip(major: u64, minor: u64, patch: u64)
    ensures
        parse_tag_spec("v"@ + crate::text::decimal(major as nat) + "."@ + crate::text::decimal(minor as nat) + "."@
            + crate::text::decimal(patch as nat)) == Some((major, minor, patch)),
{
    reveal_strlit("v");
    reveal_strlit(".");
    let a = crate::text::decimal(major as nat);
    let b = crate::text::decimal(minor as nat);
    let c = crate::text::decimal(patch as nat);
    let tag = "v"@ + a + "."@ + b + "."@ + c;
    let body = a.push('.') + (b.push('.') + c);
    assert(tag.drop_first() =~= body);
    assert(tag[0] == 'v');
    lemma_decimal_has_no_dot(major as nat);
    lemma_decimal_has_no_dot(minor as nat);
    lemma_decimal_has_no_dot(patch as nat);
    lemma_split_concat(b, c, '.');
    lemma_split_concat(a, b.push('.') + c, '.');
    lemma_split_single(a, '.');
    lemma_split_single(b, '.');
    lemma_split_single(c, '.');
    let parts = split_on(body, '.');
    assert(parts =~= seq![a, b, c]);
    lemma_parse_decimal(major);
    lemma_parse_decimal(minor);
    lemma_parse_decimal(patch);
}

} // verus!
