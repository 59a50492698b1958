//! Ordering a set of packages so that each runs after the dependencies it has
//! in the set; packages that wait on a dependency cycle are set aside.
use vstd::prelude::*;
use crate::config::{Config, contains_str, depends};
use crate::deps::is_dep_path;
use crate::plan::keep;
use crate::state::lemma_keep_subset;
use crate::text::strs;

verus! {

/// `x` can run once the packages of `done` have: each dependency of `x` that is
/// among `pkgs` is in `done` (dependencies outside the set are not waited on).
pub open spec fn is_ready(config: Config, pkgs: Seq<Seq<char>>, done: Seq<Seq<char>>, x: Seq<char>) -> bool {
    forall|d: Seq<char>| #[trigger] depends(config, x, d) && pkgs.contains(d) ==> done.contains(d)
}

/// Position `i` of `pkgs` holds a package that has not run after `done` and can run now.
pub open spec fn is_candidate(config: Config, pkgs: Seq<Seq<char>>, done: Seq<Seq<char>>, i: int) -> bool {
    &&& 0 <= i < pkgs.len()
    &&& !done.contains(pkgs[i])
    &&& is_ready(config, pkgs, done, pkgs[i])
}

/// Position `i` is the first candidate after `done`.
pub open spec fn is_first_candidate(config: Config, pkgs: Seq<Seq<char>>, done: Seq<Seq<char>>, i: int) -> bool {
    &&& is_candidate(config, pkgs, done, i)
    &&& forall|j: int| 0 <= j < i ==> !#[trigger] is_candidate(config, pkgs, done, j)
}

/// Step `k` of `sorted` runs the first candidate left after the steps before it.
pub open spec fn is_greedy_step(config: Config, pkgs: Seq<Seq<char>>, sorted: Seq<Seq<char>>, k: int) -> bool {
    exists|i: int| #[trigger] is_first_candidate(config, pkgs, sorted.take(k), i) && pkgs[i] == sorted[k]
}

/// Nothing of `pkgs` is left to run after `done`.
pub open spec fn is_stuck(config: Config, pkgs: Seq<Seq<char>>, done: Seq<Seq<char>>) -> bool {
    forall|i: int| !#[trigger] is_candidate(config, pkgs, done, i)
}

/// The order in which `pkgs` runs: again and again the first package (in the
/// order of `pkgs`) that has not run and whose dependencies in the set all
/// have, until none is left that can.
pub open spec fn is_run_order(config: Config, pkgs: Seq<Seq<char>>, sorted: Seq<Seq<char>>) -> bool {
    &&& forall|k: int| 0 <= k < sorted.len() ==> #[trigger] is_greedy_step(config, pkgs, sorted, k)
    &&& is_stuck(config, pkgs, sorted)
}

/// The packages of `pkgs`, in order, that are not in `sorted`.
pub open spec fn left_out(pkgs: Seq<Seq<char>>, sorted: Seq<Seq<char>>) -> Seq<Seq<char>> {
    keep(pkgs, |x: Seq<char>| !sorted.contains(x))
}

/// `x` waits on a dependency cycle among the packages `inset` holds: from
/// `x`, stepping each time to a dependency that `inset` holds leads back to a
/// package already passed.
pub open spec fn waits_on_cycle(config: Config, inset: spec_fn(Seq<char>) -> bool, x: Seq<char>) -> bool {
    exists|path: Seq<Seq<char>>, a: int|
        #![trigger is_dep_path(config, path), path[a]]
        is_dep_path(config, path) && path[0] == x && 0 <= a < path.len() - 1 && path[a] == path.last()
            && forall|k: int| 0 <= k < path.len() ==> inset(#[trigger] path[k])
}

/// The position of `x` in `s` (meaningful when `s` holds it).
spec fn pos(s: Seq<Seq<char>>, x: Seq<char>) -> int {
    choose|k: int| 0 <= k < s.len() && s[k] == x
}

/// In an order that runs dependencies first, a dependency in the set comes earlier.
proof fn lemma_dep_earlier(config: Config, pkgs: Seq<Seq<char>>, s: Seq<Seq<char>>, a: Seq<char>, b: Seq<char>)
    requires
        s.no_duplicates(),
        forall|k: int, d: Seq<char>| 0 <= k < s.len() && #[trigger] depends(config, s[k], d) && pkgs.contains(d)
            ==> s.take(k).contains(d),
        s.contains(a),
        depends(config, a, b),
        pkgs.contains(b),
    ensures
        s.contains(b),
        pos(s, b) < pos(s, a),
{
    let k = pos(s, a);
    assert(depends(config, s[k], b));
    assert(s.take(k).contains(b));
    let u = choose|u: int| 0 <= u < s.take(k).len() && s.take(k)[u] == b;
    assert(s[u] == b);
    let w = pos(s, b);
    assert(s[w] == b);
}

/// Along a dependency path within the set, starting at a placed package,
/// every package is placed, each earlier than the one before.
proof fn lemma_path_descends(config: Config, pkgs: Seq<Seq<char>>, s: Seq<Seq<char>>, path: Seq<Seq<char>>, i: int, j: int)
    requires
        s.no_duplicates(),
        forall|k: int, d: Seq<char>| 0 <= k < s.len() && #[trigger] depends(config, s[k], d) && pkgs.contains(d)
            ==> s.take(k).contains(d),
        is_dep_path(config, path),
        forall|k: int| 0 <= k < path.len() ==> pkgs.contains(#[trigger] path[k]),
        s.contains(path[0]),
        0 <= i < j < path.len(),
    ensures
        s.contains(path[i]),
        s.contains(path[j]),
        pos(s, path[j]) < pos(s, path[i]),
    decreases j,
{
    if i > 0 || j > 1 {
        if j - 1 > i {
            lemma_path_descends(config, pkgs, s, path, i, j - 1);
        } else if i > 0 {
            lemma_path_descends(config, pkgs, s, path, 0, i);
        }
    }
    let m = j - 1;
    assert(depends(config, path[m], path[m + 1]));
    assert(pkgs.contains(path[j]));
    if m == 0 {
        assert(s.contains(path[m]));
    }
    lemma_dep_earlier(config, pkgs, s, path[m], path[j]);
}

/// The packages an order that runs dependencies first leaves out (when it
/// stops only once nothing more can run) are exactly those waiting on a
/// dependency cycle within the set.
proof fn lemma_left_out_iff_waits(config: Config, pkgs: Seq<Seq<char>>, s: Seq<Seq<char>>, x: Seq<char>)
    requires
        is_stuck(config, pkgs, s),
        s.no_duplicates(),
        forall|k: int| 0 <= k < s.len() ==> pkgs.contains(#[trigger] s[k]),
        forall|k: int, d: Seq<char>| 0 <= k < s.len() && #[trigger] depends(config, s[k], d) && pkgs.contains(d)
            ==> s.take(k).contains(d),
    ensures
        left_out(pkgs, s).contains(x) <==> (pkgs.contains(x) && waits_on_cycle(config, |y: Seq<char>| pkgs.contains(y), x)),
{
    let f = |y: Seq<char>| !s.contains(y);
    lemma_keep_subset(pkgs, f, x);
    let inset = |y: Seq<char>| pkgs.contains(y);
    if left_out(pkgs, s).contains(x) {
        law_left_out_waits_on_a_cycle(config, pkgs, s, x);
        let (path, a) = choose|path: Seq<Seq<char>>, a: int|
            #![trigger is_dep_path(config, path), path[a]]
            is_dep_path(config, path) && path[0] == x && 0 <= a < path.len() - 1 && path[a] == path.last()
                && forall|k: int| 0 <= k < path.len() ==> left_out(pkgs, s).contains(#[trigger] path[k]);
        assert forall|k: int| 0 <= k < path.len() implies inset(#[trigger] path[k]) by {
            assert(left_out(pkgs, s).contains(path[k]));
            lemma_keep_subset(pkgs, f, path[k]);
        }
        assert(is_dep_path(config, path) && path[0] == x && 0 <= a < path.len() - 1 && path[a] == path.last());
    }
    if pkgs.contains(x) && waits_on_cycle(config, inset, x) && !left_out(pkgs, s).contains(x) {
        let (path, a) = choose|path: Seq<Seq<char>>, a: int|
            #![trigger is_dep_path(config, path), path[a]]
            is_dep_path(config, path) && path[0] == x && 0 <= a < path.len() - 1 && path[a] == path.last()
                && forall|k: int| 0 <= k < path.len() ==> inset(#[trigger] path[k]);
        assert forall|k: int| 0 <= k < path.len() implies pkgs.contains(#[trigger] path[k]) by {
            assert(inset(path[k]));
        }
        assert(s.contains(path[0]));
        let last = path.len() - 1;
        lemma_path_descends(config, pkgs, s, path, a, last);
        assert(path[last] == path[a]);
    }
}

/// A package set in an order that runs dependencies first, and the packages
/// that could not be placed because they wait on a dependency cycle.
pub struct TopoOrder {
    pub sorted: Vec<String>,
    pub cycle: Vec<String>,
}

/// A sequence without repeats whose items all lie in `t` is no longer than `t`.
proof fn lemma_distinct_within(s: Seq<Seq<char>>, t: Seq<Seq<char>>)
    requires
        s.no_duplicates(),
        forall|i: int| 0 <= i < s.len() ==> t.contains(#[trigger] s[i]),
    ensures
        s.len() <= t.len(),
{
    s.unique_seq_to_set();
    t.lemma_cardinality_of_set();
    vstd::seq_lib::seq_to_set_is_finite(t);
    assert(s.to_set().subset_of(t.to_set())) by {
        assert forall|x: Seq<char>| s.to_set().contains(x) implies t.to_set().contains(x) by {
            let i = choose|i: int| 0 <= i < s.len() && s[i] == x;
            assert(t.contains(s[i]));
        }
    }
    vstd::set_lib::lemma_len_subset(s.to_set(), t.to_set());
}

/// Whether `name` can run once `done` has, given the set `pkgs`.
fn ready(config: &Config, pkgs: &[String], done: &[String], name: &str) -> (b: bool)
    ensures
        b == is_ready(*config, strs(pkgs@), strs(done@), name@),
{
    match config.packages.get(name) {
        None => true,
        Some(p) => {
            let deps = &p.depends_on;
            let mut i: usize = 0;
            assert(crate::config::dep_names(*config, name@) == strs(deps@));
            while i < deps.len()
                invariant
                    crate::config::dep_names(*config, name@) == strs(deps@),
                    i <= deps@.len(),
                    forall|j: int| 0 <= j < i ==> strs(pkgs@).contains(#[trigger] deps@[j]@) ==> strs(done@).contains(deps@[j]@),
                decreases deps.len() - i,
            {
                if contains_str(pkgs, deps[i].as_str()) && !contains_str(done, deps[i].as_str()) {
                    proof {
                        assert(strs(deps@)[i as int] == deps@[i as int]@);
                        assert(depends(*config, name@, deps@[i as int]@));
                    }
                    return false;
                }
                i = i + 1;
            }
            proof {
                assert forall|d: Seq<char>| #[trigger] depends(*config, name@, d) && strs(pkgs@).contains(d)
                    implies strs(done@).contains(d) by {
                    let j = choose|j: int| 0 <= j < strs(deps@).len() && strs(deps@)[j] == d;
                    assert(deps@[j]@ == d);
                }
            }
            true
        }
    }
}

/// The first position of `pkgs` whose package can run after `done`, if any.
fn first_ready(config: &Config, pkgs: &[String], done: &[String]) -> (r: Option<usize>)
    ensures
        r matches Some(i) ==> is_first_candidate(*config, strs(pkgs@), strs(done@), i as int),
        r is None ==> is_stuck(*config, strs(pkgs@), strs(done@)),
{
    let ghost p = strs(pkgs@);
    let ghost d = strs(done@);
    let mut i: usize = 0;
    while i < pkgs.len()
        invariant
            p == strs(pkgs@),
            d == strs(done@),
            i <= pkgs@.len(),
            forall|j: int| 0 <= j < i ==> !#[trigger] is_candidate(*config, p, d, j),
        decreases pkgs.len() - i,
    {
        let placed = contains_str(done, pkgs[i].as_str());
        if !placed && ready(config, pkgs, done, pkgs[i].as_str()) {
            assert(p[i as int] == pkgs@[i as int]@);
            return Some(i);
        }
        assert(p[i as int] == pkgs@[i as int]@);
        i = i + 1;
    }
    None
}

/// Orders `packages` so that each runs after the dependencies it has among
/// them: step by step, the first package (in the order given) not yet placed
/// whose dependencies in the set are all placed. What can never be placed (a
/// package on a dependency cycle, or one waiting on such a package) comes back
/// in `cycle`, in the order given.
pub fn topological_sort(config: &Config, packages: &[String]) -> (r: TopoOrder)
    ensures
        is_run_order(*config, strs(packages@), strs(r.sorted@)),
        strs(r.cycle@) == left_out(strs(packages@), strs(r.sorted@)),
        strs(r.sorted@).no_duplicates(),
        forall|k: int| 0 <= k < r.sorted@.len() ==> strs(packages@).contains(#[trigger] strs(r.sorted@)[k]),
        forall|k: int, d: Seq<char>|
            0 <= k < r.sorted@.len() && #[trigger] depends(*config, strs(r.sorted@)[k], d) && strs(packages@).contains(d)
                ==> strs(r.sorted@).take(k).contains(d),
        forall|x: Seq<char>| #[trigger] strs(r.cycle@).contains(x) ==> exists|d: Seq<char>|
            #[trigger] depends(*config, x, d) && strs(r.cycle@).contains(d),
        forall|x: Seq<char>| #[trigger] strs(r.cycle@).contains(x)
            <==> (strs(packages@).contains(x) && waits_on_cycle(*config, |y: Seq<char>| strs(packages@).contains(y), x)),
{
    let ghost p = strs(packages@);
    let mut sorted: Vec<String> = Vec::new();
    loop
        invariant
            p == strs(packages@),
            forall|k: int| 0 <= k < sorted@.len() ==> #[trigger] is_greedy_step(*config, p, strs(sorted@), k),
            strs(sorted@).no_duplicates(),
            forall|k: int| 0 <= k < sorted@.len() ==> p.contains(#[trigger] strs(sorted@)[k]),
            sorted@.len() <= packages@.len(),
        ensures
            is_run_order(*config, p, strs(sorted@)),
            strs(sorted@).no_duplicates(),
            forall|k: int| 0 <= k < sorted@.len() ==> p.contains(#[trigger] strs(sorted@)[k]),
        decreases packages.len() - sorted.len(),
    {
        match first_ready(config, packages, &sorted) {
            None => break,
            Some(i) => {
                let ghost old_s = strs(sorted@);
                sorted.push(packages[i].clone());
                proof {
                    let new_s = strs(sorted@);
                    assert(new_s =~= old_s.push(p[i as int]));
                    assert(new_s.take(old_s.len() as int) =~= old_s);
                    assert forall|k: int| 0 <= k < sorted@.len() implies #[trigger] is_greedy_step(*config, p, new_s, k) by {
                        assert(new_s.take(k) =~= old_s.take(k) || k == old_s.len());
                        if k < old_s.len() {
                            assert(new_s.take(k) =~= old_s.take(k));
                            assert(is_greedy_step(*config, p, old_s, k));
                            let j = choose|j: int| #[trigger] is_first_candidate(*config, p, old_s.take(k), j) && p[j] == old_s[k];
                            assert(is_first_candidate(*config, p, new_s.take(k), j));
                        } else {
                            assert(is_first_candidate(*config, p, new_s.take(k), i as int));
                        }
                    }
                    assert forall|k: int| 0 <= k < sorted@.len() implies p.contains(#[trigger] new_s[k]) by {
                        if k == old_s.len() {
                            assert(p[i as int] == new_s[k]);
                        } else {
                            assert(new_s[k] == old_s[k]);
                        }
                    }
                    lemma_distinct_within(new_s, p);
                }
            },
        }
    }
    let ghost s = strs(sorted@);
    let ghost f = |x: Seq<char>| !s.contains(x);
    let mut cycle: Vec<String> = Vec::new();
    let mut j: usize = 0;
    while j < packages.len()
        invariant
            p == strs(packages@),
            s == strs(sorted@),
            f == (|x: Seq<char>| !s.contains(x)),
            j <= packages@.len(),
            strs(cycle@) == keep(p.take(j as int), f),
        decreases packages.len() - j,
    {
        proof {
            assert(p.take(j + 1).drop_last() =~= p.take(j as int));
            assert(p.take(j + 1).last() == packages@[j as int]@);
        }
        if !contains_str(&sorted, packages[j].as_str()) {
            cycle.push(packages[j].clone());
        }
        assert(strs(cycle@) =~= keep(p.take(j + 1), f));
        j = j + 1;
    }
    proof {
        assert(p.take(packages@.len() as int) =~= p);
        assert forall|k: int, d: Seq<char>|
            0 <= k < sorted@.len() && #[trigger] depends(*config, s[k], d) && p.contains(d)
                implies s.take(k).contains(d) by {
            assert(is_greedy_step(*config, p, s, k));
            let i = choose|i: int| #[trigger] is_first_candidate(*config, p, s.take(k), i) && p[i] == s[k];
        }
        assert forall|x: Seq<char>| #[trigger] strs(cycle@).contains(x) implies exists|d: Seq<char>|
            #[trigger] depends(*config, x, d) && strs(cycle@).contains(d) by {
            lemma_keep_subset(p, f, x);
            let i = choose|i: int| 0 <= i < p.len() && p[i] == x;
            assert(!is_candidate(*config, p, s, i));
            let d = choose|d: Seq<char>| #[trigger] depends(*config, x, d) && p.contains(d) && !s.contains(d);
            lemma_keep_subset(p, f, d);
        }
    }
    proof {
        assert forall|x: Seq<char>| #[trigger] strs(cycle@).contains(x)
            <==> (p.contains(x) && waits_on_cycle(*config, |y: Seq<char>| p.contains(y), x)) by {
            lemma_left_out_iff_waits(*config, p, s, x);
        }
    }
    TopoOrder { sorted, cycle }
}

/// The same names, last first.
pub fn reversed(v: &Vec<String>) -> (r: Vec<String>)
    ensures
        strs(r@) == strs(v@).reverse(),
{
    let ghost sv = strs(v@);
    let n = v.len();
    let mut r: Vec<String> = Vec::new();
    let mut i: usize = 0;
    while i < n
        invariant
            sv == strs(v@),
            n == v@.len(),
            i <= n,
            strs(r@) =~= Seq::new(i as nat, |k: int| sv[n - 1 - k]),
        decreases n - i,
    {
        let ghost before = strs(r@);
        r.push(v[n - 1 - i].clone());
        proof {
            assert(strs(r@) =~= before.push(sv[n - 1 - i]));
            assert(strs(r@) =~= Seq::new((i + 1) as nat, |k: int| sv[n - 1 - k]));
        }
        i = i + 1;
    }
    r
}

/// Two run orders of the same set agree on their first `k` steps.
proof fn lemma_run_orders_agree(config: Config, pkgs: Seq<Seq<char>>, s1: Seq<Seq<char>>, s2: Seq<Seq<char>>, k: int)
    requires
        is_run_order(config, pkgs, s1),
        is_run_order(config, pkgs, s2),
        0 <= k <= s1.len(),
        k <= s2.len(),
    ensures
        s1.take(k) == s2.take(k),
    decreases k,
{
    if k > 0 {
        let p = k - 1;
        lemma_run_orders_agree(config, pkgs, s1, s2, p);
        assert(is_greedy_step(config, pkgs, s1, p));
        assert(is_greedy_step(config, pkgs, s2, p));
        let i = choose|i: int| #[trigger] is_first_candidate(config, pkgs, s1.take(p), i) && pkgs[i] == s1[p];
        let j = choose|j: int| #[trigger] is_first_candidate(config, pkgs, s2.take(p), j) && pkgs[j] == s2[p];
        if i < j {
            assert(!is_candidate(config, pkgs, s2.take(p), i));
        }
        if j < i {
            assert(!is_candidate(config, pkgs, s1.take(p), j));
        }
        assert(s1.take(k) =~= s1.take(p).push(s1[p]));
        assert(s2.take(k) =~= s2.take(p).push(s2[p]));
    }
}

/// The run order of a set is determined by the configuration and the set:
/// any two orders that follow the rule are the same.
pub proof fn law_run_order_is_unique(config: Config, pkgs: Seq<Seq<char>>, s1: Seq<Seq<char>>, s2: Seq<Seq<char>>)
    requires
        is_run_order(config, pkgs, s1),
        is_run_order(config, pkgs, s2),
    ensures
        s1 == s2,
{
    if s1.len() < s2.len() {
        let m = s1.len() as int;
        lemma_run_orders_agree(config, pkgs, s1, s2, m);
        assert(s1.take(m) =~= s1);
        assert(is_greedy_step(config, pkgs, s2, m));
        let j = choose|j: int| #[trigger] is_first_candidate(config, pkgs, s2.take(m), j) && pkgs[j] == s2[m];
        assert(!is_candidate(config, pkgs, s1, j));
    } else if s2.len() < s1.len() {
        let m = s2.len() as int;
        lemma_run_orders_agree(config, pkgs, s1, s2, m);
        assert(s2.take(m) =~= s2);
        assert(is_greedy_step(config, pkgs, s1, m));
        let j = choose|j: int| #[trigger] is_first_candidate(config, pkgs, s1.take(m), j) && pkgs[j] == s1[m];
        assert(!is_candidate(config, pkgs, s2, j));
    } else {
        let m = s1.len() as int;
        lemma_run_orders_agree(config, pkgs, s1, s2, m);
        assert(s1.take(m) =~= s1);
        assert(s2.take(m) =~= s2);
    }
}

/// From `x`, `n` steps each to a dependency that is in `pkgs` but not in `done`.
spec fn stuck_walk(config: Config, pkgs: Seq<Seq<char>>, done: Seq<Seq<char>>, x: Seq<char>, n: nat) -> Seq<Seq<char>>
    decreases n,
{
    if n == 0 {
        seq![x]
    } else {
        let w = stuck_walk(config, pkgs, done, x, (n - 1) as nat);
        w.push(choose|d: Seq<char>| depends(config, w.last(), d) && pkgs.contains(d) && !done.contains(d))
    }
}

proof fn lemma_stuck_walk(config: Config, pkgs: Seq<Seq<char>>, done: Seq<Seq<char>>, x: Seq<char>, n: nat)
    requires
        is_stuck(config, pkgs, done),
        pkgs.contains(x),
        !done.contains(x),
    ensures
        stuck_walk(config, pkgs, done, x, n).len() == n + 1,
        is_dep_path(config, stuck_walk(config, pkgs, done, x, n)),
        stuck_walk(config, pkgs, done, x, n)[0] == x,
        forall|k: int| 0 <= k <= n ==> pkgs.contains(#[trigger] stuck_walk(config, pkgs, done, x, n)[k])
            && !done.contains(stuck_walk(config, pkgs, done, x, n)[k]),
    decreases n,
{
    if n > 0 {
        lemma_stuck_walk(config, pkgs, done, x, (n - 1) as nat);
        let w = stuck_walk(config, pkgs, done, x, (n - 1) as nat);
        let y = w.last();
        assert(pkgs.contains(w[w.len() - 1]));
        let i = choose|i: int| 0 <= i < pkgs.len() && pkgs[i] == y;
        assert(!is_candidate(config, pkgs, done, i));
        let d = choose|d: Seq<char>| depends(config, y, d) && pkgs.contains(d) && !done.contains(d);
        let w2 = stuck_walk(config, pkgs, done, x, n);
        assert(w2 == w.push(d));
        assert forall|k: int| 0 <= k < w2.len() - 1 implies #[trigger] depends(config, w2[k], w2[k + 1]) by {
            if k < w.len() - 1 {
                assert(depends(config, w[k], w[k + 1]));
            }
        }
        assert forall|k: int| 0 <= k <= n implies pkgs.contains(#[trigger] w2[k]) && !done.contains(w2[k]) by {
            if k < n {
                assert(w2[k] == w[k]);
                assert(pkgs.contains(w[k]));
            }
        }
    }
}

/// Once nothing more can run, every package left out waits on a dependency
/// cycle: from it, stepping each time to a dependency that was left out too
/// leads back to a package already passed.
pub proof fn law_left_out_waits_on_a_cycle(config: Config, pkgs: Seq<Seq<char>>, done: Seq<Seq<char>>, x: Seq<char>)
    requires
        is_stuck(config, pkgs, done),
        left_out(pkgs, done).contains(x),
    ensures
        exists|path: Seq<Seq<char>>, a: int|
            #![trigger is_dep_path(config, path), path[a]]
            is_dep_path(config, path) && path[0] == x && 0 <= a < path.len() - 1 && path[a] == path.last()
                && forall|k: int| 0 <= k < path.len() ==> left_out(pkgs, done).contains(#[trigger] path[k]),
{
    let f = |y: Seq<char>| !done.contains(y);
    let l = left_out(pkgs, done);
    lemma_keep_subset(pkgs, f, x);
    let m = l.len();
    lemma_stuck_walk(config, pkgs, done, x, m);
    let w = stuck_walk(config, pkgs, done, x, m);
    assert forall|k: int| 0 <= k < w.len() implies l.contains(#[trigger] w[k]) by {
        lemma_keep_subset(pkgs, f, w[k]);
    }
    if w.no_duplicates() {
        lemma_distinct_within(w, l);
        assert(false);
    }
    let (a, b) = choose|a: int, b: int| 0 <= a < w.len() && 0 <= b < w.len() && a != b && w[a] == w[b];
    let (lo, hi) = if a < b { (a, b) } else { (b, a) };
    let path = w.take(hi + 1);
    assert forall|k: int| 0 <= k < path.len() - 1 implies #[trigger] depends(config, path[k], path[k + 1]) by {
        assert(depends(config, w[k], w[k + 1]));
    }
    assert(is_dep_path(config, path));
    assert(path[lo] == path.last());
    assert forall|k: int| 0 <= k < path.len() implies l.contains(#[trigger] path[k]) by {
        assert(path[k] == w[k]);
    }
}

} // verus!
