//! Dependency expansion: which packages an install pulls in, and which
//! dependents an uninstall takes along.
use vstd::prelude::*;
use crate::config::{Config, PackageConfig, strs, dep_names, depends, contains_str};
use crate::strmap::{StrMap, has_key, lookup, lemma_lookup_at};
use crate::text::{owned, push_str};

verus! {

/// Each step of `path` goes from a package to one of its declared dependencies.
pub open spec fn is_dep_path(config: Config, path: Seq<Seq<char>>) -> bool {
    &&& path.len() >= 1
    &&& forall|i: int| 0 <= i < path.len() - 1 ==> #[trigger] depends(config, path[i], path[i + 1])
}

/// `x` is one of `from`, or a dependency of one of them, directly or transitively.
pub open spec fn reaches(config: Config, from: Seq<Seq<char>>, x: Seq<char>) -> bool {
    exists|path: Seq<Seq<char>>|
        is_dep_path(config, path) && from.contains(path[0]) && #[trigger] path.last() == x
}

/// `x` is one of `from`, or depends on one of them, directly or transitively.
pub open spec fn reached_by(config: Config, from: Seq<Seq<char>>, x: Seq<char>) -> bool {
    exists|path: Seq<Seq<char>>|
        is_dep_path(config, path) && from.contains(path.last()) && #[trigger] path[0] == x
}

/// The note attached to a package pulled in because `requester` depends on it.
pub open spec fn required_by_note(requester: Seq<char>) -> Seq<char> {
    "required by "@ + requester
}

/// The note attached to a package pulled in because it depends on `dependency`.
pub open spec fn depends_on_note(dependency: Seq<char>) -> Seq<char> {
    "depends on "@ + dependency
}

/// Every dependency name declared by any entry of `s`.
pub open spec fn all_deps(s: Seq<(Seq<char>, PackageConfig)>) -> Seq<Seq<char>>
    decreases s.len(),
{
    if s.len() == 0 {
        Seq::empty()
    } else {
        all_deps(s.drop_last()) + strs(s.last().1.depends_on@)
    }
}

proof fn lemma_all_deps_contains(s: Seq<(Seq<char>, PackageConfig)>, i: int, d: Seq<char>)
    requires
        0 <= i < s.len(),
        strs(s[i].1.depends_on@).contains(d),
    ensures
        all_deps(s).contains(d),
    decreases s.len(),
{
    let t = all_deps(s.drop_last());
    let u = strs(s.last().1.depends_on@);
    if i == s.len() - 1 {
        let j = choose|j: int| 0 <= j < u.len() && u[j] == d;
        assert((t + u)[t.len() + j] == d);
    } else {
        assert(s.drop_last()[i] == s[i]);
        lemma_all_deps_contains(s.drop_last(), i, d);
        let j = choose|j: int| 0 <= j < t.len() && t[j] == d;
        assert((t + u)[j] == d);
    }
}

/// Every declared dependency of a configured package is among `all_deps`.
proof fn lemma_dep_in_all_deps(config: Config, name: Seq<char>, d: Seq<char>)
    requires
        dep_names(config, name).contains(d),
        crate::strmap::sorted_keys(config.packages@),
    ensures
        all_deps(config.packages@).contains(d),
{
    let s = config.packages@;
    let i = crate::strmap::key_index(s, name);
    lemma_lookup_at(s, i);
    lemma_all_deps_contains(s, i, d);
}

/// A path of one package.
proof fn lemma_path_start(config: Config, from: Seq<Seq<char>>, x: Seq<char>)
    requires
        from.contains(x),
    ensures
        reaches(config, from, x),
        reached_by(config, from, x),
{
    let p = seq![x];
    assert(is_dep_path(config, p));
    assert(p.last() == x);
    assert(p[0] == x);
}

/// Extending a path by one dependency step.
proof fn lemma_path_extend(config: Config, from: Seq<Seq<char>>, x: Seq<char>, d: Seq<char>)
    requires
        reaches(config, from, x),
        depends(config, x, d),
    ensures
        reaches(config, from, d),
{
    let p = choose|path: Seq<Seq<char>>|
        is_dep_path(config, path) && from.contains(path[0]) && #[trigger] path.last() == x;
    let q = p.push(d);
    assert forall|i: int| 0 <= i < q.len() - 1 implies #[trigger] depends(config, q[i], q[i + 1]) by {
        if i < p.len() - 1 {
            assert(q[i] == p[i] && q[i + 1] == p[i + 1]);
        } else {
            assert(q[i] == x);
        }
    }
    assert(q[0] == p[0]);
    assert(q.last() == d);
}

/// Prepending a dependent to a path.
proof fn lemma_path_prepend(config: Config, from: Seq<Seq<char>>, x: Seq<char>, d: Seq<char>)
    requires
        reached_by(config, from, x),
        depends(config, d, x),
    ensures
        reached_by(config, from, d),
{
    let p = choose|path: Seq<Seq<char>>|
        is_dep_path(config, path) && from.contains(path.last()) && #[trigger] path[0] == x;
    let q = seq![d] + p;
    assert forall|i: int| 0 <= i < q.len() - 1 implies #[trigger] depends(config, q[i], q[i + 1]) by {
        if i == 0 {
            assert(q[1] == p[0]);
        } else {
            assert(q[i] == p[i - 1] && q[i + 1] == p[i]);
            assert(depends(config, p[i - 1], p[i - 1 + 1]));
        }
    }
    assert(q.last() == p.last());
    assert(q[0] == d);
}

/// The names on a work stack.
pub open spec fn stack_names(st: Seq<(String, Option<String>)>) -> Seq<Seq<char>> {
    st.map_values(|e: (String, Option<String>)| e.0@)
}

/// Expands `packages` with all their transitive dependencies.
///
/// Returns the expanded list (each name once) and, for each name that was
/// pulled in rather than requested, a note naming a package of the list that
/// directly depends on it ("required by <requester>").
pub fn expand_dependencies(config: &Config, packages: &[String]) -> (r: (Vec<String>, StrMap<String>))
    ensures
        strs(r.0@).no_duplicates(),
        forall|p: Seq<char>| strs(packages@).contains(p) ==> strs(r.0@).contains(p),
        forall|x: Seq<char>, d: Seq<char>|
            strs(r.0@).contains(x) && #[trigger] depends(*config, x, d) ==> strs(r.0@).contains(d),
        forall|x: Seq<char>| strs(r.0@).contains(x) <==> reaches(*config, strs(packages@), x),
        forall|x: Seq<char>|
            #[trigger] has_key(r.1@, x) == (strs(r.0@).contains(x) && !strs(packages@).contains(x)),
        forall|x: Seq<char>| #[trigger] lookup(r.1@, x) is Some ==>
            exists|q: Seq<char>|
                strs(r.0@).contains(q) && #[trigger] depends(*config, q, x) && lookup(r.1@, x)->0@ == required_by_note(q),
{
    let ghost pv = strs(packages@);
    let ghost univ = pv + all_deps(config.packages@);
    let ghost ulen = univ.to_set().len();
    let _ = config.packages.len();
    proof {
        vstd::seq_lib::seq_to_set_is_finite(univ);
    }
    let mut result: Vec<String> = Vec::new();
    let mut notes: StrMap<String> = StrMap::new();
    let mut stack: Vec<(String, Option<String>)> = Vec::new();
    let mut k: usize = packages.len();
    while k > 0
        invariant
            pv == strs(packages@),
            k <= packages@.len(),
            stack@.len() == packages@.len() - k,
            forall|i: int| 0 <= i < stack@.len() ==> (#[trigger] stack@[i]).0@ == pv[packages@.len() - 1 - i] && stack@[i].1 is None,
        decreases k,
    {
        k = k - 1;
        stack.push((packages[k].clone(), None));
        assert(pv[k as int] == packages@[k as int]@);
    }
    proof {
        assert forall|p: Seq<char>| pv.contains(p) implies stack_names(stack@).contains(p) by {
            let j = choose|j: int| 0 <= j < pv.len() && pv[j] == p;
            let i = packages@.len() - 1 - j;
            assert(stack_names(stack@)[i] == p);
        }
        assert forall|i: int| 0 <= i < stack@.len() implies univ.contains((#[trigger] stack@[i]).0@)
            && reaches(*config, pv, stack@[i].0@) && pv.contains(stack@[i].0@) by {
            let j = packages@.len() - 1 - i;
            assert(pv[j] == stack@[i].0@);
            assert(univ[j] == pv[j]);
            lemma_path_start(*config, pv, stack@[i].0@);
        }
    }
    while stack.len() > 0
        invariant
            crate::strmap::sorted_keys(config.packages@),
            pv == strs(packages@),
            univ == pv + all_deps(config.packages@),
            univ.to_set().finite(),
            ulen == univ.to_set().len(),
            strs(result@).no_duplicates(),
            forall|x: Seq<char>| strs(result@).contains(x) ==> univ.contains(x),
            forall|i: int| 0 <= i < stack@.len() ==> univ.contains((#[trigger] stack@[i]).0@),
            forall|i: int| 0 <= i < stack@.len() ==> reaches(*config, pv, (#[trigger] stack@[i]).0@),
            forall|x: Seq<char>| strs(result@).contains(x) ==> reaches(*config, pv, x),
            forall|i: int| 0 <= i < stack@.len() ==> match (#[trigger] stack@[i]).1 {
                Some(q) => strs(result@).contains(q@) && depends(*config, q@, stack@[i].0@),
                None => pv.contains(stack@[i].0@),
            },
            forall|x: Seq<char>, d: Seq<char>|
                strs(result@).contains(x) && #[trigger] depends(*config, x, d) ==> strs(result@).contains(d)
                    || stack_names(stack@).contains(d),
            forall|p: Seq<char>| pv.contains(p) ==> strs(result@).contains(p) || stack_names(stack@).contains(p),
            forall|x: Seq<char>|
                #[trigger] has_key(notes@, x) == (strs(result@).contains(x) && !pv.contains(x)),
            forall|x: Seq<char>| #[trigger] lookup(notes@, x) is Some ==>
                exists|q: Seq<char>|
                    strs(result@).contains(q) && #[trigger] depends(*config, q, x) && lookup(notes@, x)->0@ == required_by_note(q),
        decreases ulen - result@.len(), stack@.len(),
    {
        proof {
            strs(result@).unique_seq_to_set();
            assert(strs(result@).to_set().subset_of(univ.to_set()));
            vstd::set_lib::lemma_len_subset(strs(result@).to_set(), univ.to_set());
        }
        let ghost st0 = stack@;
        let ghost rv0 = strs(result@);
        let (name, requester) = stack.pop().unwrap();
        assert(st0 == stack@.push((name, requester)));
        assert(stack_names(st0) =~= stack_names(stack@).push(name@));
        if contains_str(&result, name.as_str()) {
            proof {
                assert forall|i: int| 0 <= i < stack@.len() implies reaches(*config, pv, (#[trigger] stack@[i]).0@) by {
                    assert(stack@[i] == st0[i]);
                }
                assert forall|i: int| 0 <= i < stack@.len() implies univ.contains((#[trigger] stack@[i]).0@) by {
                    assert(stack@[i] == st0[i]);
                }
                assert forall|i: int| 0 <= i < stack@.len() implies match (#[trigger] stack@[i]).1 {
                    Some(q) => strs(result@).contains(q@) && depends(*config, q@, stack@[i].0@),
                    None => pv.contains(stack@[i].0@),
                } by {
                    assert(stack@[i] == st0[i]);
                }
            }
            continue;
        }
        // `name` is newly visited.
        let ghost old_notes = notes@;
        let is_requested = contains_str(packages, name.as_str());
        let ghost pushed_note: bool = false;
        match &requester {
            Some(req) => {
                if !is_requested {
                    let mut note = owned("required by ");
                    push_str(&mut note, req.as_str());
                    notes.insert(name.clone(), note);
                }
            },
            None => {},
        }
        result.push(name.clone());
        let ghost rv1 = strs(result@);
        proof {
            assert(rv1 =~= rv0.push(name@));
            assert forall|x: Seq<char>| rv0.contains(x) implies rv1.contains(x) by {
                let j = choose|j: int| 0 <= j < rv0.len() && rv0[j] == x;
                assert(rv1[j] == x);
            }
            assert(rv1[rv0.len() as int] == name@);
            assert(univ.contains(name@)) by {
                assert(st0[st0.len() - 1].0 == name);
            }
            assert(reaches(*config, pv, name@)) by {
                assert(st0[st0.len() - 1].0 == name);
            }
            assert forall|x: Seq<char>| rv1.contains(x) implies rv0.contains(x) || x == name@ by {
                let j = choose|j: int| 0 <= j < rv1.len() && rv1[j] == x;
                if j < rv0.len() {
                    assert(rv0[j] == x);
                }
            }
            assert(rv1.no_duplicates()) by {
                assert forall|i: int, j: int| 0 <= i < rv1.len() && 0 <= j < rv1.len() && i != j
                    implies rv1[i] != rv1[j] by {
                    if i < rv0.len() && j < rv0.len() {
                        assert(rv0[i] == rv1[i] && rv0[j] == rv1[j]);
                    } else if i < rv0.len() {
                        assert(rv0.contains(rv1[i]));
                    } else if j < rv0.len() {
                        assert(rv0.contains(rv1[j]));
                    }
                }
            }
            assert forall|x: Seq<char>|
                #[trigger] has_key(notes@, x) == (rv1.contains(x) && !pv.contains(x)) by {
                if x == name@ {
                    if requester is None {
                        assert(pv.contains(name@)) by {
                            assert(st0[st0.len() - 1].0 == name);
                        }
                    }
                }
            }
            assert forall|x: Seq<char>| #[trigger] lookup(notes@, x) is Some implies
                exists|q: Seq<char>|
                    rv1.contains(q) && #[trigger] depends(*config, q, x) && lookup(notes@, x)->0@ == required_by_note(q) by {
                if x == name@ && requester is Some && !is_requested {
                    let q = requester->0@;
                    assert(st0[st0.len() - 1].1 == requester);
                    assert(rv1.contains(q) && depends(*config, q, x));
                } else {
                    let v = lookup(notes@, x)->0;
                    assert(lookup(old_notes, x) == Some(v));
                    let q = choose|q: Seq<char>|
                        rv0.contains(q) && #[trigger] depends(*config, q, x) && v@ == required_by_note(q);
                    assert(rv1.contains(q));
                }
            }
        }
        let ghost st1 = stack@;
        match config.packages.get(name.as_str()) {
            Some(pkg) => {
                let ghost dn = strs(pkg.depends_on@);
                proof {
                    assert(dn == dep_names(*config, name@));
                }
                let mut j: usize = 0;
                while j < pkg.depends_on.len()
                    invariant
                        crate::strmap::sorted_keys(config.packages@),
                        pv == strs(packages@),
                        univ == pv + all_deps(config.packages@),
                        dn == dep_names(*config, name@),
                        dn == strs(pkg.depends_on@),
                        rv1 == strs(result@),
                        rv1.contains(name@),
                        reaches(*config, pv, name@),
                        j <= pkg.depends_on@.len(),
                        st1.len() <= stack@.len(),
                        forall|i: int| 0 <= i < st1.len() ==> stack@[i] == st1[i],
                        forall|i: int| st1.len() <= i < stack@.len() ==> (#[trigger] stack@[i]).1 == Some(name) && dn.contains(stack@[i].0@),
                        forall|i: int| 0 <= i < j ==> rv1.contains(#[trigger] dn[i]) || stack_names(stack@).contains(dn[i]),
                    decreases pkg.depends_on.len() - j,
                {
                    let dep = &pkg.depends_on[j];
                    let ghost sb = stack@;
                    if !contains_str(&result, dep.as_str()) {
                        stack.push((dep.clone(), Some(name.clone())));
                        proof {
                            assert(dn[j as int] == dep@);
                            assert(stack_names(stack@)[sb.len() as int] == dep@);
                            assert forall|i: int| 0 <= i < j implies rv1.contains(#[trigger] dn[i]) || stack_names(stack@).contains(dn[i]) by {
                                if !rv1.contains(dn[i]) {
                                    let m = choose|m: int| 0 <= m < sb.len() && stack_names(sb)[m] == dn[i];
                                    assert(stack_names(stack@)[m] == dn[i]);
                                }
                            }
                        }
                    }
                    j = j + 1;
                }
                proof {
                    assert forall|d: Seq<char>| #[trigger] depends(*config, name@, d) implies rv1.contains(d) || stack_names(stack@).contains(d) by {
                        let i = choose|i: int| 0 <= i < dn.len() && dn[i] == d;
                    }
                    assert forall|i: int| st1.len() <= i < stack@.len() implies univ.contains((#[trigger] stack@[i]).0@) by {
                        lemma_dep_in_all_deps(*config, name@, stack@[i].0@);
                        let a = all_deps(config.packages@);
                        let m = choose|m: int| 0 <= m < a.len() && a[m] == stack@[i].0@;
                        assert(univ[pv.len() + m] == stack@[i].0@);
                    }
                    assert forall|i: int| st1.len() <= i < stack@.len() implies reaches(*config, pv, (#[trigger] stack@[i]).0@) by {
                        lemma_path_extend(*config, pv, name@, stack@[i].0@);
                    }
                }
            },
            None => {
                proof {
                    assert forall|d: Seq<char>| #[trigger] depends(*config, name@, d) implies false by {
                        assert(dep_names(*config, name@).len() == 0);
                    }
                }
            },
        }
        proof {
            let rv = strs(result@);
            let sn = stack_names(stack@);
            assert forall|x: Seq<char>| rv.contains(x) implies univ.contains(x) by {
                if x != name@ {
                    assert(rv0.contains(x));
                }
            }
            rv.unique_seq_to_set();
            assert(rv.to_set().subset_of(univ.to_set()));
            vstd::set_lib::lemma_len_subset(rv.to_set(), univ.to_set());
            assert forall|x: Seq<char>| sn.contains(x) || x == name@ implies rv.contains(x) || sn.contains(x) by {}
            assert forall|i: int| 0 <= i < st1.len() implies #[trigger] stack@[i] == st1[i] by {}
            assert forall|m: int| 0 <= m < st1.len() implies sn.contains(stack_names(st1)[m]) by {
                assert(sn[m] == stack_names(st1)[m]);
            }
            assert forall|x: Seq<char>| stack_names(st0).contains(x) implies rv.contains(x) || sn.contains(x) by {
                let m = choose|m: int| 0 <= m < st0.len() && stack_names(st0)[m] == x;
                if m < st1.len() {
                    assert(stack_names(st1)[m] == x);
                }
            }
            assert forall|i: int| 0 <= i < stack@.len() implies univ.contains((#[trigger] stack@[i]).0@) by {
                if i < st1.len() {
                    assert(st1[i] == st0[i]);
                }
            }
            assert forall|i: int| 0 <= i < stack@.len() implies reaches(*config, pv, (#[trigger] stack@[i]).0@) by {
                if i < st1.len() {
                    assert(st1[i] == st0[i]);
                }
            }
            assert forall|i: int| 0 <= i < stack@.len() implies match (#[trigger] stack@[i]).1 {
                Some(q) => rv.contains(q@) && depends(*config, q@, stack@[i].0@),
                None => pv.contains(stack@[i].0@),
            } by {
                if i < st1.len() {
                    assert(st1[i] == st0[i]);
                } else {
                    let d = stack@[i].0@;
                    let dn = dep_names(*config, name@);
                    assert(dn.contains(d));
                }
            }
            assert forall|x: Seq<char>| rv.contains(x) implies univ.contains(x) by {
                if x != name@ {
                    assert(rv0.contains(x));
                }
            }
            assert forall|x: Seq<char>| rv.contains(x) implies reaches(*config, pv, x) by {
                if x != name@ {
                    assert(rv0.contains(x));
                }
            }
            assert forall|x: Seq<char>, d: Seq<char>|
                rv.contains(x) && #[trigger] depends(*config, x, d) implies rv.contains(d) || sn.contains(d) by {
                if x != name@ {
                    assert(rv0.contains(x));
                    if rv0.contains(d) {
                        assert(rv.contains(d));
                    } else {
                        assert(stack_names(st0).contains(d));
                    }
                }
            }
            assert forall|p: Seq<char>| pv.contains(p) implies rv.contains(p) || sn.contains(p) by {
                if rv0.contains(p) {
                    assert(rv.contains(p));
                } else {
                    assert(stack_names(st0).contains(p));
                }
            }
        }
    }
    proof {
        assert forall|x: Seq<char>| reaches(*config, pv, x) implies strs(result@).contains(x) by {
            lemma_closed_holds_reachable(*config, pv, strs(result@), x);
        }
    }
    (result, notes)
}

/// A configured name `y` that depends on `x` is a key of the configuration,
/// found at its position.
proof fn lemma_dependent_is_key(config: Config, y: Seq<char>, x: Seq<char>)
    requires
        crate::strmap::sorted_keys(config.packages@),
        depends(config, y, x),
    ensures
        has_key(config.packages@, y),
        ({
            let i = crate::strmap::key_index(config.packages@, y);
            &&& 0 <= i < config.packages@.len()
            &&& config.packages@[i].0 == y
            &&& strs(config.packages@[i].1.depends_on@).contains(x)
        }),
{
    let s = config.packages@;
    assert(lookup(s, y) is Some);
    let i = crate::strmap::key_index(s, y);
    lemma_lookup_at(s, i);
}

/// Expands `packages` with every package that depends on one of them,
/// directly or transitively (the set an uninstall has to take along).
///
/// Returns the expanded list (each name once, in no promised order) and, for
/// each name that was pulled in rather than requested, a note naming a package
/// of the list it directly depends on ("depends on <dependency>").
pub fn expand_reverse_dependencies(config: &Config, packages: &[String]) -> (r: (Vec<String>, StrMap<String>))
    ensures
        strs(r.0@).no_duplicates(),
        forall|p: Seq<char>| strs(packages@).contains(p) ==> strs(r.0@).contains(p),
        forall|x: Seq<char>, y: Seq<char>|
            strs(r.0@).contains(x) && #[trigger] depends(*config, y, x) ==> strs(r.0@).contains(y),
        forall|x: Seq<char>| strs(r.0@).contains(x) <==> reached_by(*config, strs(packages@), x),
        forall|x: Seq<char>|
            #[trigger] has_key(r.1@, x) == (strs(r.0@).contains(x) && !strs(packages@).contains(x)),
        forall|x: Seq<char>| #[trigger] lookup(r.1@, x) is Some ==>
            exists|q: Seq<char>|
                strs(r.0@).contains(q) && #[trigger] depends(*config, x, q) && lookup(r.1@, x)->0@ == depends_on_note(q),
{
    let ghost pv = strs(packages@);
    let ghost univ = pv + keys_of_packages(*config);
    let ghost ulen = univ.to_set().len();
    let _ = config.packages.len();
    proof {
        vstd::seq_lib::seq_to_set_is_finite(univ);
    }
    let mut result: Vec<String> = Vec::new();
    let mut notes: StrMap<String> = StrMap::new();
    let mut stack: Vec<(String, Option<String>)> = Vec::new();
    let mut k: usize = packages.len();
    while k > 0
        invariant
            pv == strs(packages@),
            k <= packages@.len(),
            stack@.len() == packages@.len() - k,
            forall|i: int| 0 <= i < stack@.len() ==> (#[trigger] stack@[i]).0@ == pv[packages@.len() - 1 - i] && stack@[i].1 is None,
        decreases k,
    {
        k = k - 1;
        stack.push((packages[k].clone(), None));
        assert(pv[k as int] == packages@[k as int]@);
    }
    proof {
        assert forall|p: Seq<char>| pv.contains(p) implies stack_names(stack@).contains(p) by {
            let j = choose|j: int| 0 <= j < pv.len() && pv[j] == p;
            let i = packages@.len() - 1 - j;
            assert(stack_names(stack@)[i] == p);
        }
        assert forall|i: int| 0 <= i < stack@.len() implies univ.contains((#[trigger] stack@[i]).0@)
            && reached_by(*config, pv, stack@[i].0@) && pv.contains(stack@[i].0@) by {
            let j = packages@.len() - 1 - i;
            assert(pv[j] == stack@[i].0@);
            assert(univ[j] == pv[j]);
            lemma_path_start(*config, pv, stack@[i].0@);
        }
    }
    while stack.len() > 0
        invariant
            crate::strmap::sorted_keys(config.packages@),
            pv == strs(packages@),
            univ == pv + keys_of_packages(*config),
            univ.to_set().finite(),
            ulen == univ.to_set().len(),
            strs(result@).no_duplicates(),
            forall|x: Seq<char>| strs(result@).contains(x) ==> univ.contains(x),
            forall|i: int| 0 <= i < stack@.len() ==> univ.contains((#[trigger] stack@[i]).0@),
            forall|i: int| 0 <= i < stack@.len() ==> reached_by(*config, pv, (#[trigger] stack@[i]).0@),
            forall|x: Seq<char>| strs(result@).contains(x) ==> reached_by(*config, pv, x),
            forall|i: int| 0 <= i < stack@.len() ==> match (#[trigger] stack@[i]).1 {
                Some(q) => strs(result@).contains(q@) && depends(*config, stack@[i].0@, q@),
                None => pv.contains(stack@[i].0@),
            },
            forall|x: Seq<char>, y: Seq<char>|
                strs(result@).contains(x) && #[trigger] depends(*config, y, x) ==> strs(result@).contains(y)
                    || stack_names(stack@).contains(y),
            forall|p: Seq<char>| pv.contains(p) ==> strs(result@).contains(p) || stack_names(stack@).contains(p),
            forall|x: Seq<char>|
                #[trigger] has_key(notes@, x) == (strs(result@).contains(x) && !pv.contains(x)),
            forall|x: Seq<char>| #[trigger] lookup(notes@, x) is Some ==>
                exists|q: Seq<char>|
                    strs(result@).contains(q) && #[trigger] depends(*config, x, q) && lookup(notes@, x)->0@ == depends_on_note(q),
        decreases ulen - result@.len(), stack@.len(),
    {
        proof {
            strs(result@).unique_seq_to_set();
            assert(strs(result@).to_set().subset_of(univ.to_set()));
            vstd::set_lib::lemma_len_subset(strs(result@).to_set(), univ.to_set());
        }
        let ghost st0 = stack@;
        let ghost rv0 = strs(result@);
        let (name, triggered_by) = stack.pop().unwrap();
        assert(st0 == stack@.push((name, triggered_by)));
        assert(stack_names(st0) =~= stack_names(stack@).push(name@));
        if contains_str(&result, name.as_str()) {
            proof {
                assert forall|i: int| 0 <= i < stack@.len() implies reached_by(*config, pv, (#[trigger] stack@[i]).0@) by {
                    assert(stack@[i] == st0[i]);
                }
                assert forall|i: int| 0 <= i < stack@.len() implies univ.contains((#[trigger] stack@[i]).0@) by {
                    assert(stack@[i] == st0[i]);
                }
                assert forall|i: int| 0 <= i < stack@.len() implies match (#[trigger] stack@[i]).1 {
                    Some(q) => strs(result@).contains(q@) && depends(*config, stack@[i].0@, q@),
                    None => pv.contains(stack@[i].0@),
                } by {
                    assert(stack@[i] == st0[i]);
                }
            }
            continue;
        }
        let ghost old_notes = notes@;
        let is_requested = contains_str(packages, name.as_str());
        match &triggered_by {
            Some(dep_name) => {
                if !is_requested {
                    let mut note = owned("depends on ");
                    push_str(&mut note, dep_name.as_str());
                    notes.insert(name.clone(), note);
                }
            },
            None => {},
        }
        result.push(name.clone());
        let ghost rv1 = strs(result@);
        proof {
            assert(rv1 =~= rv0.push(name@));
            assert forall|x: Seq<char>| rv0.contains(x) implies rv1.contains(x) by {
                let j = choose|j: int| 0 <= j < rv0.len() && rv0[j] == x;
                assert(rv1[j] == x);
            }
            assert(rv1[rv0.len() as int] == name@);
            assert(univ.contains(name@)) by {
                assert(st0[st0.len() - 1].0 == name);
            }
            assert(reached_by(*config, pv, name@)) by {
                assert(st0[st0.len() - 1].0 == name);
            }
            assert forall|x: Seq<char>| rv1.contains(x) implies rv0.contains(x) || x == name@ by {
                let j = choose|j: int| 0 <= j < rv1.len() && rv1[j] == x;
                if j < rv0.len() {
                    assert(rv0[j] == x);
                }
            }
            assert(rv1.no_duplicates()) by {
                assert forall|i: int, j: int| 0 <= i < rv1.len() && 0 <= j < rv1.len() && i != j
                    implies rv1[i] != rv1[j] by {
                    if i < rv0.len() && j < rv0.len() {
                        assert(rv0[i] == rv1[i] && rv0[j] == rv1[j]);
                    } else if i < rv0.len() {
                        assert(rv0.contains(rv1[i]));
                    } else if j < rv0.len() {
                        assert(rv0.contains(rv1[j]));
                    }
                }
            }
            assert forall|x: Seq<char>|
                #[trigger] has_key(notes@, x) == (rv1.contains(x) && !pv.contains(x)) by {
                if x == name@ {
                    if triggered_by is None {
                        assert(pv.contains(name@)) by {
                            assert(st0[st0.len() - 1].0 == name);
                        }
                    }
                }
            }
            assert forall|x: Seq<char>| #[trigger] lookup(notes@, x) is Some implies
                exists|q: Seq<char>|
                    rv1.contains(q) && #[trigger] depends(*config, x, q) && lookup(notes@, x)->0@ == depends_on_note(q) by {
                if x == name@ && triggered_by is Some && !is_requested {
                    let q = triggered_by->0@;
                    assert(st0[st0.len() - 1].1 == triggered_by);
                    assert(rv1.contains(q) && depends(*config, x, q));
                } else {
                    let v = lookup(notes@, x)->0;
                    assert(lookup(old_notes, x) == Some(v));
                    let q = choose|q: Seq<char>|
                        rv0.contains(q) && #[trigger] depends(*config, x, q) && v@ == depends_on_note(q);
                    assert(rv1.contains(q));
                }
            }
        }
        let ghost st1 = stack@;
        let n = config.packages.len();
        let mut j: usize = 0;
        while j < n
            invariant
                n == config.packages@.len(),
                crate::strmap::sorted_keys(config.packages@),
                pv == strs(packages@),
                univ == pv + keys_of_packages(*config),
                rv1 == strs(result@),
                rv1.contains(name@),
                reached_by(*config, pv, name@),
                j <= n,
                st1.len() <= stack@.len(),
                forall|i: int| 0 <= i < st1.len() ==> stack@[i] == st1[i],
                forall|i: int| st1.len() <= i < stack@.len() ==> (#[trigger] stack@[i]).1 == Some(name)
                    && depends(*config, stack@[i].0@, name@) && univ.contains(stack@[i].0@),
                forall|i: int| 0 <= i < j && strs((#[trigger] config.packages@[i]).1.depends_on@).contains(name@)
                    ==> rv1.contains(config.packages@[i].0) || stack_names(stack@).contains(config.packages@[i].0),
            decreases n - j,
        {
            let (dep_key, pkg) = config.packages.entry(j);
            let ghost sb = stack@;
            if contains_str(&pkg.depends_on, name.as_str()) && !contains_str(&result, dep_key.as_str()) {
                stack.push((dep_key.clone(), Some(name.clone())));
                proof {
                    let s = config.packages@;
                    lemma_lookup_at(s, j as int);
                    assert(depends(*config, dep_key@, name@));
                    assert(keys_of_packages(*config)[j as int] == dep_key@);
                    assert(univ[pv.len() + j] == dep_key@);
                    assert(stack_names(stack@)[sb.len() as int] == dep_key@);
                    assert forall|i: int| 0 <= i < j && strs((#[trigger] config.packages@[i]).1.depends_on@).contains(name@)
                        implies rv1.contains(config.packages@[i].0) || stack_names(stack@).contains(config.packages@[i].0) by {
                        if !rv1.contains(config.packages@[i].0) {
                            let m = choose|m: int| 0 <= m < sb.len() && stack_names(sb)[m] == config.packages@[i].0;
                            assert(stack_names(stack@)[m] == config.packages@[i].0);
                        }
                    }
                }
            }
            j = j + 1;
        }
        proof {
            let rv = strs(result@);
            let sn = stack_names(stack@);
            assert forall|y: Seq<char>| #[trigger] depends(*config, y, name@) implies rv1.contains(y) || sn.contains(y) by {
                lemma_dependent_is_key(*config, y, name@);
            }
            assert forall|x: Seq<char>| rv.contains(x) implies univ.contains(x) by {
                if x != name@ {
                    assert(rv0.contains(x));
                }
            }
            rv.unique_seq_to_set();
            assert(rv.to_set().subset_of(univ.to_set()));
            vstd::set_lib::lemma_len_subset(rv.to_set(), univ.to_set());
            assert forall|i: int| 0 <= i < st1.len() implies #[trigger] stack@[i] == st1[i] by {}
            assert forall|m: int| 0 <= m < st1.len() implies sn.contains(stack_names(st1)[m]) by {
                assert(sn[m] == stack_names(st1)[m]);
            }
            assert forall|x: Seq<char>| stack_names(st0).contains(x) implies rv.contains(x) || sn.contains(x) by {
                let m = choose|m: int| 0 <= m < st0.len() && stack_names(st0)[m] == x;
                if m < st1.len() {
                    assert(stack_names(st1)[m] == x);
                }
            }
            assert forall|i: int| 0 <= i < stack@.len() implies univ.contains((#[trigger] stack@[i]).0@) by {
                if i < st1.len() {
                    assert(st1[i] == st0[i]);
                }
            }
            assert forall|i: int| 0 <= i < stack@.len() implies reached_by(*config, pv, (#[trigger] stack@[i]).0@) by {
                if i < st1.len() {
                    assert(st1[i] == st0[i]);
                } else {
                    lemma_path_prepend(*config, pv, name@, stack@[i].0@);
                }
            }
            assert forall|i: int| 0 <= i < stack@.len() implies match (#[trigger] stack@[i]).1 {
                Some(q) => rv.contains(q@) && depends(*config, stack@[i].0@, q@),
                None => pv.contains(stack@[i].0@),
            } by {
                if i < st1.len() {
                    assert(st1[i] == st0[i]);
                }
            }
            assert forall|x: Seq<char>| rv.contains(x) implies reached_by(*config, pv, x) by {
                if x != name@ {
                    assert(rv0.contains(x));
                }
            }
            assert forall|x: Seq<char>, y: Seq<char>|
                rv.contains(x) && #[trigger] depends(*config, y, x) implies rv.contains(y) || sn.contains(y) by {
                if x != name@ {
                    assert(rv0.contains(x));
                    if rv0.contains(y) {
                        assert(rv.contains(y));
                    } else {
                        assert(stack_names(st0).contains(y));
                    }
                }
            }
            assert forall|p: Seq<char>| pv.contains(p) implies rv.contains(p) || sn.contains(p) by {
                if rv0.contains(p) {
                    assert(rv.contains(p));
                } else {
                    assert(stack_names(st0).contains(p));
                }
            }
        }
    }
    proof {
        assert forall|x: Seq<char>| reached_by(*config, pv, x) implies strs(result@).contains(x) by {
            lemma_closed_holds_reached_by(*config, pv, strs(result@), x);
        }
    }
    (result, notes)
}

/// The names of the configured packages, in order.
pub open spec fn keys_of_packages(config: Config) -> Seq<Seq<char>> {
    crate::strmap::keys_of(config.packages@)
}


/// Along a dependency path that starts inside a dependency-closed set, every step stays inside.
proof fn lemma_path_stays_in_closed(config: Config, path: Seq<Seq<char>>, set: Seq<Seq<char>>, i: int)
    requires
        is_dep_path(config, path),
        0 <= i < path.len(),
        set.contains(path[0]),
        forall|a: Seq<char>, d: Seq<char>| set.contains(a) && #[trigger] depends(config, a, d) ==> set.contains(d),
    ensures
        set.contains(path[i]),
    decreases i,
{
    if i > 0 {
        lemma_path_stays_in_closed(config, path, set, i - 1);
        assert(depends(config, path[i - 1], path[i - 1 + 1]));
    }
}

/// Along a dependency path that ends inside a dependent-closed set, every step stays inside.
proof fn lemma_path_stays_in_closed_back(config: Config, path: Seq<Seq<char>>, set: Seq<Seq<char>>, i: int)
    requires
        is_dep_path(config, path),
        0 <= i < path.len(),
        set.contains(path.last()),
        forall|a: Seq<char>, y: Seq<char>| set.contains(a) && #[trigger] depends(config, y, a) ==> set.contains(y),
    ensures
        set.contains(path[i]),
    decreases path.len() - i,
{
    if i < path.len() - 1 {
        lemma_path_stays_in_closed_back(config, path, set, i + 1);
        assert(depends(config, path[i], path[i + 1]));
    }
}

/// A set that holds `from` and is closed under dependencies holds everything `from` reaches.
pub proof fn lemma_closed_holds_reachable(config: Config, from: Seq<Seq<char>>, set: Seq<Seq<char>>, x: Seq<char>)
    requires
        forall|p: Seq<char>| from.contains(p) ==> set.contains(p),
        forall|a: Seq<char>, d: Seq<char>| set.contains(a) && #[trigger] depends(config, a, d) ==> set.contains(d),
        reaches(config, from, x),
    ensures
        set.contains(x),
{
    let path = choose|path: Seq<Seq<char>>|
        is_dep_path(config, path) && from.contains(path[0]) && #[trigger] path.last() == x;
    lemma_path_stays_in_closed(config, path, set, path.len() - 1);
}

/// A set that holds `from` and is closed under dependents holds everything that reaches `from`.
pub proof fn lemma_closed_holds_reached_by(config: Config, from: Seq<Seq<char>>, set: Seq<Seq<char>>, x: Seq<char>)
    requires
        forall|p: Seq<char>| from.contains(p) ==> set.contains(p),
        forall|a: Seq<char>, y: Seq<char>| set.contains(a) && #[trigger] depends(config, y, a) ==> set.contains(y),
        reached_by(config, from, x),
    ensures
        set.contains(x),
{
    let path = choose|path: Seq<Seq<char>>|
        is_dep_path(config, path) && from.contains(path.last()) && #[trigger] path[0] == x;
    lemma_path_stays_in_closed_back(config, path, set, 0);
}

proof fn lemma_path_stays_in(config: Config, path: Seq<Seq<char>>, s: Set<Seq<char>>, k: int)
    requires
        is_dep_path(config, path),
        s.contains(path[0]),
        forall|a: Seq<char>, b: Seq<char>| s.contains(a) && #[trigger] depends(config, a, b) ==> s.contains(b),
        0 <= k < path.len(),
    ensures
        s.contains(path[k]),
    decreases k,
{
    if k > 0 {
        lemma_path_stays_in(config, path, s, k - 1);
        let j = k - 1;
        assert(depends(config, path[j], path[j + 1]));
    }
}

proof fn lemma_path_stays_in_rev(config: Config, path: Seq<Seq<char>>, s: Set<Seq<char>>, k: int)
    requires
        is_dep_path(config, path),
        s.contains(path.last()),
        forall|a: Seq<char>, b: Seq<char>| s.contains(b) && #[trigger] depends(config, a, b) ==> s.contains(a),
        0 <= k < path.len(),
    ensures
        s.contains(path[k]),
    decreases path.len() - k,
{
    if k < path.len() - 1 {
        lemma_path_stays_in_rev(config, path, s, k + 1);
        assert(depends(config, path[k], path[k + 1]));
    }
}

/// What installing covers holds, with each package, every package it depends on.
pub proof fn law_install_cover_is_closed(config: Config, packages: Seq<Seq<char>>, x: Seq<char>, d: Seq<char>)
    requires
        reaches(config, packages, x),
        depends(config, x, d),
    ensures
        reaches(config, packages, d),
{
    let path = choose|path: Seq<Seq<char>>| is_dep_path(config, path) && packages.contains(path[0]) && #[trigger] path.last() == x;
    let longer = path.push(d);
    assert forall|i: int| 0 <= i < longer.len() - 1 implies #[trigger] depends(config, longer[i], longer[i + 1]) by {
        if i < path.len() - 1 {
            assert(depends(config, path[i], path[i + 1]));
        }
    }
    assert(longer[0] == path[0]);
    assert(longer.last() == d);
}

/// What installing covers is the least set that holds the requested packages
/// and, with each package, every package it depends on.
pub proof fn law_install_cover_is_least(config: Config, packages: Seq<Seq<char>>, s: Set<Seq<char>>, x: Seq<char>)
    requires
        forall|p: Seq<char>| packages.contains(p) ==> s.contains(p),
        forall|a: Seq<char>, b: Seq<char>| s.contains(a) && #[trigger] depends(config, a, b) ==> s.contains(b),
        reaches(config, packages, x),
    ensures
        s.contains(x),
{
    let path = choose|path: Seq<Seq<char>>| is_dep_path(config, path) && packages.contains(path[0]) && #[trigger] path.last() == x;
    lemma_path_stays_in(config, path, s, path.len() - 1);
}

/// What uninstalling covers holds, with each package, every package that depends on it.
pub proof fn law_uninstall_cover_is_closed(config: Config, packages: Seq<Seq<char>>, x: Seq<char>, q: Seq<char>)
    requires
        reached_by(config, packages, x),
        depends(config, q, x),
    ensures
        reached_by(config, packages, q),
{
    let path = choose|path: Seq<Seq<char>>| is_dep_path(config, path) && packages.contains(path.last()) && #[trigger] path[0] == x;
    let longer = seq![q] + path;
    assert forall|i: int| 0 <= i < longer.len() - 1 implies #[trigger] depends(config, longer[i], longer[i + 1]) by {
        if i > 0 {
            let j = i - 1;
            assert(depends(config, path[j], path[j + 1]));
            assert(longer[i] == path[j] && longer[i + 1] == path[j + 1]);
        }
    }
    assert(longer.last() == path.last());
    assert(longer[0] == q);
}

/// What uninstalling covers is the least set that holds the requested
/// packages and, with each package, every package that depends on it: no
/// dependency of a requested package is added.
pub proof fn law_uninstall_cover_is_least(config: Config, packages: Seq<Seq<char>>, s: Set<Seq<char>>, x: Seq<char>)
    requires
        forall|p: Seq<char>| packages.contains(p) ==> s.contains(p),
        forall|a: Seq<char>, b: Seq<char>| s.contains(b) && #[trigger] depends(config, a, b) ==> s.contains(a),
        reached_by(config, packages, x),
    ensures
        s.contains(x),
{
    let path = choose|path: Seq<Seq<char>>| is_dep_path(config, path) && packages.contains(path.last()) && #[trigger] path[0] == x;
    lemma_path_stays_in_rev(config, path, s, 0);
}

/// Installing `p` pulls in `x` exactly when uninstalling `x` takes `p` along:
/// the two expansions follow the same dependency paths in opposite directions.
pub proof fn law_expansions_are_dual(config: Config, p: Seq<char>, x: Seq<char>)
    ensures
        reaches(config, seq![p], x) <==> reached_by(config, seq![x], p),
{
    if reaches(config, seq![p], x) {
        let path = choose|path: Seq<Seq<char>>|
            is_dep_path(config, path) && seq![p].contains(path[0]) && #[trigger] path.last() == x;
        assert(seq![p].contains(path[0]));
        assert(path[0] == p) by {
            let k = choose|k: int| 0 <= k < 1 && seq![p][k] == path[0];
        }
        assert(seq![x][0] == path.last());
        assert(seq![x].contains(path.last()));
        assert(reached_by(config, seq![x], p));
    }
    if reached_by(config, seq![x], p) {
        let path = choose|path: Seq<Seq<char>>|
            is_dep_path(config, path) && seq![x].contains(path.last()) && #[trigger] path[0] == p;
        assert(path.last() == x) by {
            let k = choose|k: int| 0 <= k < 1 && seq![x][k] == path.last();
        }
        assert(seq![p][0] == path[0]);
        assert(seq![p].contains(path[0]));
        assert(reaches(config, seq![p], x));
    }
}

/// A package with no declared dependency pulls in nothing but itself.
pub proof fn law_no_deps_expands_to_itself(config: Config, p: Seq<char>, x: Seq<char>)
    requires
        dep_names(config, p).len() == 0,
    ensures
        reaches(config, seq![p], x) <==> x == p,
{
    if reaches(config, seq![p], x) {
        let path = choose|path: Seq<Seq<char>>|
            is_dep_path(config, path) && seq![p].contains(path[0]) && #[trigger] path.last() == x;
        assert(path[0] == p) by {
            let k = choose|k: int| 0 <= k < 1 && seq![p][k] == path[0];
        }
        if path.len() > 1 {
            assert(depends(config, path[0], path[1]));
            assert(dep_names(config, p).contains(path[1]));
        }
    }
    if x == p {
        let path = seq![p];
        assert(is_dep_path(config, path));
        assert(seq![p].contains(path[0]));
        assert(path.last() == x);
    }
}

} // verus!
