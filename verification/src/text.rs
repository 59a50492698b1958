//! String helpers shared by the library: character access, comparison and building.
use vstd::prelude::*;

verus! {

/// The characters of `s`, in order.
pub fn chars_of(s: &str) -> (v: Vec<char>)
    ensures
        v@ == s@,
{
    let mut v: Vec<char> = Vec::new();
    for c in it: s.chars()
        invariant
            v@ == it.seq().take(it.index() as int),
            it.seq() == s@,
    {
        v.push(c);
    }
    v
}

/// `a` and `b` agree on their first `i` characters.
pub open spec fn common_prefix(a: Seq<char>, b: Seq<char>, i: int) -> bool {
    &&& 0 <= i <= a.len()
    &&& i <= b.len()
    &&& forall|j: int| 0 <= j < i ==> a[j] == b[j]
}

/// `a` comes strictly before `b` in the order of `str`, decided at position `i`.
pub open spec fn lex_lt_at(a: Seq<char>, b: Seq<char>, i: int) -> bool {
    &&& common_prefix(a, b, i)
    &&& ((i == a.len() && i < b.len()) || (i < a.len() && i < b.len() && (a[i] as int) < (b[i]
        as int)))
}

/// Strict lexicographic order on character sequences (code point by code point),
/// the order in which `str` values compare.
pub open spec fn lex_lt(a: Seq<char>, b: Seq<char>) -> bool {
    exists|i: int| lex_lt_at(a, b, i)
}

/// The position where `a` and `b` first differ (or the shorter length).
pub open spec fn first_diff(a: Seq<char>, b: Seq<char>) -> int
    decreases a.len(),
{
    if a.len() == 0 || b.len() == 0 || a[0] != b[0] {
        0
    } else {
        1 + first_diff(a.drop_first(), b.drop_first())
    }
}

pub proof fn lemma_first_diff(a: Seq<char>, b: Seq<char>)
    ensures
        common_prefix(a, b, first_diff(a, b)),
        first_diff(a, b) == a.len() || first_diff(a, b) == b.len() || a[first_diff(a, b)] != b[first_diff(a, b)],
    decreases a.len(),
{
    if a.len() == 0 || b.len() == 0 || a[0] != b[0] {
    } else {
        lemma_first_diff(a.drop_first(), b.drop_first());
        let k = first_diff(a.drop_first(), b.drop_first());
        assert forall|j: int| 0 <= j < k + 1 implies a[j] == b[j] by {
            if j > 0 {
                assert(a[j] == a.drop_first()[j - 1]);
                assert(b[j] == b.drop_first()[j - 1]);
            }
        }
    }
}

/// Any two common-prefix witnesses of a strict comparison agree.
proof fn lemma_lex_lt_unique_at(a: Seq<char>, b: Seq<char>, i: int, k: int)
    requires
        lex_lt_at(a, b, i),
        common_prefix(a, b, k),
        k == a.len() || k == b.len() || a[k] != b[k],
    ensures
        i == k,
{
    if i < k {
        assert(a[i] == b[i]);
    } else if k < i {
        assert(a[k] == b[k]);
    }
}

pub proof fn lemma_lex_lt_irreflexive(a: Seq<char>)
    ensures
        !lex_lt(a, a),
{
}

pub proof fn lemma_lex_lt_asymmetric(a: Seq<char>, b: Seq<char>)
    ensures
        lex_lt(a, b) ==> !lex_lt(b, a),
{
    if lex_lt(a, b) && lex_lt(b, a) {
        let i = choose|i: int| lex_lt_at(a, b, i);
        let k = choose|k: int| lex_lt_at(b, a, k);
        if i < k {
            assert(b[i] == a[i]);
        } else if k < i {
            assert(a[k] == b[k]);
        }
    }
}

pub proof fn lemma_lex_lt_total(a: Seq<char>, b: Seq<char>)
    ensures
        a != b ==> lex_lt(a, b) || lex_lt(b, a),
{
    lemma_first_diff(a, b);
    let k = first_diff(a, b);
    if k == a.len() && k == b.len() {
        assert(a =~= b);
    } else if k == a.len() {
        assert(lex_lt_at(a, b, k));
    } else if k == b.len() {
        assert(lex_lt_at(b, a, k));
    } else if (a[k] as int) < (b[k] as int) {
        assert(lex_lt_at(a, b, k));
    } else {
        assert(a[k] != b[k]);
        assert((a[k] as int) != (b[k] as int));
        assert(lex_lt_at(b, a, k));
    }
}

pub proof fn lemma_lex_lt_transitive(a: Seq<char>, b: Seq<char>, c: Seq<char>)
    requires
        lex_lt(a, b),
        lex_lt(b, c),
    ensures
        lex_lt(a, c),
{
    let i = choose|i: int| lex_lt_at(a, b, i);
    let k = choose|k: int| lex_lt_at(b, c, k);
    if i < k {
        assert(lex_lt_at(a, c, i));
    } else if k < i {
        assert(lex_lt_at(a, c, k));
    } else {
        assert(lex_lt_at(a, c, i));
    }
}

/// Whether `a` sorts strictly before `b`.
pub fn str_lt(a: &str, b: &str) -> (r: bool)
    ensures
        r == lex_lt(a@, b@),
{
    let va = chars_of(a);
    let vb = chars_of(b);
    let mut i: usize = 0;
    while i < va.len() && i < vb.len() && va[i] == vb[i]
        invariant
            va@ == a@,
            vb@ == b@,
            common_prefix(a@, b@, i as int),
        decreases va.len() - i,
    {
        i = i + 1;
    }
    proof {
        lemma_lex_lt_unique_witness(a@, b@, i as int);
    }
    if i == va.len() {
        i < vb.len()
    } else if i == vb.len() {
        false
    } else {
        va[i] < vb[i]
    }
}

proof fn lemma_lex_lt_unique_witness(a: Seq<char>, b: Seq<char>, k: int)
    requires
        common_prefix(a, b, k),
        k == a.len() || k == b.len() || a[k] != b[k],
    ensures
        lex_lt(a, b) <==> lex_lt_at(a, b, k),
{
    if lex_lt(a, b) {
        let i = choose|i: int| lex_lt_at(a, b, i);
        lemma_lex_lt_unique_at(a, b, i, k);
    }
}

/// Whether two strings hold the same characters.
pub fn str_eq(a: &str, b: &str) -> (r: bool)
    ensures
        r == (a@ == b@),
{
    let va = chars_of(a);
    let vb = chars_of(b);
    if va.len() != vb.len() {
        return false;
    }
    let mut i: usize = 0;
    while i < va.len()
        invariant
            va@ == a@,
            vb@ == b@,
            va.len() == vb.len(),
            i <= va.len(),
            forall|j: int| 0 <= j < i ==> va@[j] == vb@[j],
        decreases va.len() - i,
    {
        if va[i] != vb[i] {
            return false;
        }
        i = i + 1;
    }
    assert(a@ =~= b@);
    true
}

/// Appends one character to a string.
#[verifier::external_body]
pub(crate) fn push_char(s: &mut String, c: char)
    ensures
        final(s)@ == old(s)@.push(c),
{
    s.push(c);
}

/// A fresh string holding the characters of `s`.
pub fn owned(s: &str) -> (r: String)
    ensures
        r@ == s@,
{
    s.to_owned()
}

/// Appends the characters of `t` to `s`.
pub fn push_str(s: &mut String, t: &str)
    ensures
        final(s)@ == old(s)@ + t@,
{
    let v = chars_of(t);
    let ghost s0 = s@;
    let mut i: usize = 0;
    while i < v.len()
        invariant
            v@ == t@,
            i <= v.len(),
            s@ == s0 + t@.take(i as int),
        decreases v.len() - i,
    {
        push_char(s, v[i]);
        assert(t@.take(i + 1) =~= t@.take(i as int).push(t@[i as int]));
        i = i + 1;
    }
    assert(t@.take(v.len() as int) =~= t@);
}

/// `c` repeated `n` times.
pub open spec fn repeat_char(c: char, n: nat) -> Seq<char> {
    Seq::new(n, |_i: int| c)
}

/// A string of `n` copies of `c`.
pub fn repeat(c: char, n: usize) -> (r: String)
    ensures
        r@ == repeat_char(c, n as nat),
{
    let mut r = String::new();
    let mut i: usize = 0;
    while i < n
        invariant
            i <= n,
            r@ == repeat_char(c, i as nat),
        decreases n - i,
    {
        push_char(&mut r, c);
        assert(r@ =~= repeat_char(c, (i + 1) as nat));
        i = i + 1;
    }
    r
}

/// `s` followed by spaces up to `width` characters (the `{:<width$}` layout).
pub open spec fn pad_right(s: Seq<char>, width: nat) -> Seq<char> {
    if s.len() >= width {
        s
    } else {
        s + repeat_char(' ', (width - s.len()) as nat)
    }
}

/// Appends `t` padded on the right with spaces to `width` characters.
pub fn push_padded(s: &mut String, t: &str, width: usize)
    ensures
        final(s)@ == old(s)@ + pad_right(t@, width as nat),
{
    push_str(s, t);
    let n = chars_of(t).len();
    if n < width {
        let pad = repeat(' ', width - n);
        push_str(s, pad.as_str());
    }
}

/// Length of `s` in bytes, as `str::len` counts it.
pub open spec fn byte_len(s: Seq<char>) -> usize {
    vstd::utf8::encode_utf8(s).len() as usize
}

/// The number of bytes of `s`.
pub fn byte_len_of(s: &str) -> (n: usize)
    ensures
        n == byte_len(s@),
{
    s.len()
}


/// The characters of each string of `v`.
pub open spec fn strs(v: Seq<String>) -> Seq<Seq<char>> {
    v.map_values(|s: String| s@)
}

/// Lines joined with `\n` between them (no trailing newline).
pub open spec fn join_lines(ls: Seq<Seq<char>>) -> Seq<char>
    decreases ls.len(),
{
    if ls.len() == 0 {
        Seq::empty()
    } else if ls.len() == 1 {
        ls[0]
    } else {
        join_lines(ls.drop_last()) + "\n"@ + ls.last()
    }
}

/// Lines each followed by `\n` (what writing them one by one with `writeln!` produces).
pub open spec fn unlines(ls: Seq<Seq<char>>) -> Seq<char>
    decreases ls.len(),
{
    if ls.len() == 0 {
        Seq::empty()
    } else {
        unlines(ls.drop_last()) + ls.last() + "\n"@
    }
}

/// Joins lines with `\n` between them.
pub fn join_with_newlines(ls: &[String]) -> (r: String)
    ensures
        r@ == join_lines(strs(ls@)),
{
    let mut r = String::new();
    let mut i: usize = 0;
    while i < ls.len()
        invariant
            i <= ls@.len(),
            r@ == join_lines(strs(ls@).take(i as int)),
        decreases ls.len() - i,
    {
        let ghost before = strs(ls@).take(i as int);
        if i > 0 {
            push_str(&mut r, "\n");
        }
        push_str(&mut r, ls[i].as_str());
        proof {
            let after = strs(ls@).take(i + 1);
            assert(after.drop_last() =~= before);
            assert(after.last() == ls@[i as int]@);
            if i == 0 {
                assert(r@ =~= after[0]);
            }
        }
        i = i + 1;
    }
    assert(strs(ls@).take(ls@.len() as int) =~= strs(ls@));
    r
}

/// Appends `line` and a newline.
pub fn push_line(s: &mut String, line: &str)
    ensures
        final(s)@ == old(s)@ + line@ + "\n"@,
{
    push_str(s, line);
    push_str(s, "\n");
}

/// The strings of `ls` with `sep` between each two of them.
pub open spec fn join_sep(ls: Seq<Seq<char>>, sep: Seq<char>) -> Seq<char>
    decreases ls.len(),
{
    if ls.len() == 0 {
        Seq::empty()
    } else if ls.len() == 1 {
        ls[0]
    } else {
        join_sep(ls.drop_last(), sep) + sep + ls.last()
    }
}

/// Joins strings with `sep` between them.
pub fn join_strings(ls: &[String], sep: &str) -> (r: String)
    ensures
        r@ == join_sep(strs(ls@), sep@),
{
    let mut r = String::new();
    let mut i: usize = 0;
    while i < ls.len()
        invariant
            i <= ls@.len(),
            r@ == join_sep(strs(ls@).take(i as int), sep@),
        decreases ls.len() - i,
    {
        let ghost before = strs(ls@).take(i as int);
        if i > 0 {
            push_str(&mut r, sep);
        }
        push_str(&mut r, ls[i].as_str());
        proof {
            let after = strs(ls@).take(i + 1);
            assert(after.drop_last() =~= before);
            assert(after.last() == ls@[i as int]@);
            if i == 0 {
                assert(r@ =~= after[0]);
            }
        }
        i = i + 1;
    }
    assert(strs(ls@).take(ls@.len() as int) =~= strs(ls@));
    r
}

/// The decimal digit for `d` (below ten).
pub open spec fn digit_char(d: nat) -> char {
    if d == 0 { '0' } else if d == 1 { '1' } else if d == 2 { '2' } else if d == 3 { '3' } else if d == 4 { '4' }
    else if d == 5 { '5' } else if d == 6 { '6' } else if d == 7 { '7' } else if d == 8 { '8' } else { '9' }
}

/// `n` written in decimal, without leading zeros.
pub open spec fn decimal(n: nat) -> Seq<char>
    decreases n,
{
    if n < 10 {
        seq![digit_char(n)]
    } else {
        decimal(n / 10).push(digit_char(n % 10))
    }
}

fn digit(d: usize) -> (c: char)
    requires
        d < 10,
    ensures
        c == digit_char(d as nat),
{
    if d == 0 { '0' } else if d == 1 { '1' } else if d == 2 { '2' } else if d == 3 { '3' } else if d == 4 { '4' }
    else if d == 5 { '5' } else if d == 6 { '6' } else if d == 7 { '7' } else if d == 8 { '8' } else { '9' }
}

/// Appends `n` in decimal.
pub fn push_decimal(s: &mut String, n: usize)
    ensures
        final(s)@ == old(s)@ + decimal(n as nat),
    decreases n,
{
    if n < 10 {
        push_char(s, digit(n));
    } else {
        push_decimal(s, n / 10);
        push_char(s, digit(n % 10));
    }
}

/// A signed integer written in decimal.
pub open spec fn signed_decimal(n: int) -> Seq<char> {
    if n < 0 {
        "-"@ + decimal((-n) as nat)
    } else {
        decimal(n as nat)
    }
}

/// Appends `n` in decimal, with a minus sign when negative.
pub fn push_i32(s: &mut String, n: i32)
    ensures
        final(s)@ == old(s)@ + signed_decimal(n as int),
{
    if n < 0 {
        push_str(s, "-");
        let m: i64 = -(n as i64);
        push_decimal(s, m as usize);
    } else {
        push_decimal(s, n as usize);
    }
}

} // verus!
