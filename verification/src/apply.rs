//! Deciding what `package apply`, `install`, `update` and `uninstall` act on.
use vstd::prelude::*;
use crate::config::{Config, contains_str, depends};
use crate::deps::required_by_note;
use crate::plan::{Action, keep, pkg_enabled};
use crate::strmap::{StrMap, has_key, keys_of, lookup};
use crate::topo::{TopoOrder, is_run_order, left_out, reversed, topological_sort};
use crate::text::{lex_lt, owned, push_str, str_eq, str_lt, strs};

verus! {

/// Configured and enabled, and listed as installed.
pub open spec fn to_update_pred(config: Config, installed: Seq<Seq<char>>) -> spec_fn(Seq<char>) -> bool {
    |n: Seq<char>| pkg_enabled(config, n) && installed.contains(n)
}

/// Configured and enabled, and not listed as installed.
pub open spec fn to_install_pred(config: Config, installed: Seq<Seq<char>>) -> spec_fn(Seq<char>) -> bool {
    |n: Seq<char>| pkg_enabled(config, n) && !installed.contains(n)
}

/// Not enabled.
pub open spec fn disabled_pred(config: Config) -> spec_fn(Seq<char>) -> bool {
    |n: Seq<char>| !pkg_enabled(config, n)
}

/// Sorts every configured package, in name order, into those `package apply`
/// installs, those it updates, and the disabled ones it skips.
pub fn classify_for_apply(config: &Config, installed: &[String]) -> (r: (Vec<String>, Vec<String>, Vec<String>))
    ensures
        strs(r.0@) == keep(keys_of(config.packages@), to_install_pred(*config, strs(installed@))),
        strs(r.1@) == keep(keys_of(config.packages@), to_update_pred(*config, strs(installed@))),
        strs(r.2@) == keep(keys_of(config.packages@), disabled_pred(*config)),
{
    let ghost keys = keys_of(config.packages@);
    let ghost fi = to_install_pred(*config, strs(installed@));
    let ghost fu = to_update_pred(*config, strs(installed@));
    let ghost fd = disabled_pred(*config);
    let mut ins: Vec<String> = Vec::new();
    let mut upd: Vec<String> = Vec::new();
    let mut dis: Vec<String> = Vec::new();
    let n = config.packages.len();
    let mut i: usize = 0;
    while i < n
        invariant
            n == config.packages@.len(),
            keys == keys_of(config.packages@),
            fi == to_install_pred(*config, strs(installed@)),
            fu == to_update_pred(*config, strs(installed@)),
            fd == disabled_pred(*config),
            crate::strmap::sorted_keys(config.packages@),
            i <= n,
            strs(ins@) == keep(keys.take(i as int), fi),
            strs(upd@) == keep(keys.take(i as int), fu),
            strs(dis@) == keep(keys.take(i as int), fd),
        decreases n - i,
    {
        let (name, pkg) = config.packages.entry(i);
        proof {
            assert(keys.take(i + 1).drop_last() =~= keys.take(i as int));
            assert(keys.take(i + 1).last() == name@);
            crate::strmap::lemma_lookup_at(config.packages@, i as int);
        }
        if !pkg.enabled {
            dis.push(name.clone());
        } else if contains_str(installed, name.as_str()) {
            upd.push(name.clone());
        } else {
            ins.push(name.clone());
        }
        proof {
            assert(strs(ins@) =~= keep(keys.take(i + 1), fi));
            assert(strs(upd@) =~= keep(keys.take(i + 1), fu));
            assert(strs(dis@) =~= keep(keys.take(i + 1), fd));
        }
        i = i + 1;
    }
    assert(keys.take(n as int) =~= keys);
    (ins, upd, dis)
}

/// Unknown, or configured and enabled.
pub open spec fn not_disabled_pred(config: Config) -> spec_fn(Seq<char>) -> bool {
    |n: Seq<char>| !has_key(config.packages@, n) || pkg_enabled(config, n)
}

/// Drops the disabled packages from an expanded install list, keeping unknown
/// names and the order.
pub fn drop_disabled(config: &Config, names: &[String]) -> (r: Vec<String>)
    ensures
        strs(r@) == keep(strs(names@), not_disabled_pred(*config)),
{
    let ghost ns = strs(names@);
    let ghost f = not_disabled_pred(*config);
    let mut r: Vec<String> = Vec::new();
    let mut i: usize = 0;
    while i < names.len()
        invariant
            ns == strs(names@),
            f == not_disabled_pred(*config),
            i <= names@.len(),
            strs(r@) == keep(ns.take(i as int), f),
        decreases names.len() - i,
    {
        proof {
            assert(ns.take(i + 1).drop_last() =~= ns.take(i as int));
            assert(ns.take(i + 1).last() == names@[i as int]@);
        }
        let keep_it = match config.packages.get(names[i].as_str()) {
            None => true,
            Some(p) => p.enabled,
        };
        if keep_it {
            r.push(names[i].clone());
        }
        assert(strs(r@) =~= keep(ns.take(i + 1), f));
        i = i + 1;
    }
    assert(ns.take(names@.len() as int) =~= ns);
    r
}

/// `q` is another package of the set `ordered` that depends on `name`.
pub open spec fn is_requester(config: Config, ordered: Seq<Seq<char>>, name: Seq<char>, q: Seq<char>) -> bool {
    ordered.contains(q) && q != name && depends(config, q, name)
}

/// The alphabetically first package of `ordered[..k]` that requests `name`, if any.
fn first_requester(config: &Config, ordered: &[String], name: &str) -> (r: Option<usize>)
    ensures
        r is None ==> forall|q: Seq<char>| !is_requester(*config, strs(ordered@), name@, q),
        r matches Some(k) ==> k < ordered@.len() && is_requester(*config, strs(ordered@), name@, ordered@[k as int]@)
            && forall|q: Seq<char>| #[trigger] is_requester(*config, strs(ordered@), name@, q)
                ==> !lex_lt(q, ordered@[k as int]@),
{
    let ghost os = strs(ordered@);
    let mut best: Option<usize> = None;
    let mut i: usize = 0;
    while i < ordered.len()
        invariant
            os == strs(ordered@),
            i <= ordered@.len(),
            best is None ==> forall|j: int| 0 <= j < i ==> !is_requester(*config, os, name@, #[trigger] os[j]),
            best matches Some(k) ==> k < i && is_requester(*config, os, name@, os[k as int])
                && forall|j: int| 0 <= j < i && is_requester(*config, os, name@, #[trigger] os[j]) ==> !lex_lt(os[j], os[k as int]),
        decreases ordered.len() - i,
    {
        let other = &ordered[i];
        proof {
            assert(os[i as int] == other@);
            assert(os.contains(other@));
        }
        let requests = if str_eq(other.as_str(), name) {
            false
        } else {
            match config.packages.get(other.as_str()) {
                Some(cfg) => contains_str(&cfg.depends_on, name),
                None => false,
            }
        };
        assert(requests == is_requester(*config, os, name@, os[i as int]));
        if requests {
            match best {
                None => {
                    best = Some(i);
                },
                Some(k) => {
                    if str_lt(other.as_str(), ordered[k].as_str()) {
                        proof {
                            assert forall|j: int| 0 <= j <= i && is_requester(*config, os, name@, #[trigger] os[j])
                                implies !lex_lt(os[j], os[i as int]) by {
                                if j < i {
                                    if lex_lt(os[j], os[i as int]) {
                                        crate::text::lemma_lex_lt_transitive(os[j], os[i as int], os[k as int]);
                                    }
                                } else {
                                    crate::text::lemma_lex_lt_irreflexive(os[j]);
                                }
                            }
                        }
                        best = Some(i);
                    } else {
                        proof {
                            assert(os[k as int] == ordered@[k as int]@);
                        }
                    }
                },
            }
        }
        i = i + 1;
    }
    proof {
        assert forall|q: Seq<char>| #[trigger] is_requester(*config, os, name@, q) implies (match best {
            Some(k) => !lex_lt(q, os[k as int]),
            None => false,
        }) by {
            let j = choose|j: int| 0 <= j < os.len() && os[j] == q;
            assert(is_requester(*config, os, name@, os[j]));
        }
        if let Some(k) = best {
            assert(os[k as int] == ordered@[k as int]@);
        }
    }
    best
}

/// The notes `package apply` shows next to packages of its set that another
/// package of the set depends on: `required by <requester>`, naming the
/// alphabetically first such requester.
pub fn intra_set_notes(config: &Config, ordered: &[String]) -> (r: StrMap<String>)
    ensures
        forall|x: Seq<char>| strs(ordered@).contains(x) ==> (#[trigger] has_key(r@, x)
            <==> exists|q: Seq<char>| is_requester(*config, strs(ordered@), x, q)),
        forall|x: Seq<char>| !strs(ordered@).contains(x) ==> !#[trigger] has_key(r@, x),
        forall|x: Seq<char>| #[trigger] has_key(r@, x) ==> exists|q: Seq<char>| {
            &&& is_requester(*config, strs(ordered@), x, q)
            &&& lookup(r@, x)->0@ == required_by_note(q)
            &&& forall|q2: Seq<char>| #[trigger] is_requester(*config, strs(ordered@), x, q2) ==> !lex_lt(q2, q)
        },
{
    let ghost os = strs(ordered@);
    let mut notes: StrMap<String> = StrMap::new();
    let mut i: usize = 0;
    while i < ordered.len()
        invariant
            os == strs(ordered@),
            i <= ordered@.len(),
            forall|x: Seq<char>| #[trigger] has_key(notes@, x) ==> os.take(i as int).contains(x),
            forall|x: Seq<char>| os.take(i as int).contains(x) ==> (#[trigger] has_key(notes@, x)
                <==> exists|q: Seq<char>| is_requester(*config, os, x, q)),
            forall|x: Seq<char>| #[trigger] has_key(notes@, x) ==> exists|q: Seq<char>| {
                &&& is_requester(*config, os, x, q)
                &&& lookup(notes@, x)->0@ == required_by_note(q)
                &&& forall|q2: Seq<char>| #[trigger] is_requester(*config, os, x, q2) ==> !lex_lt(q2, q)
            },
        decreases ordered.len() - i,
    {
        let name = &ordered[i];
        let ghost prev = os.take(i as int);
        let ghost next = os.take(i + 1);
        proof {
            assert(next =~= prev.push(name@));
            assert forall|x: Seq<char>| next.contains(x) == (prev.contains(x) || x == name@) by {
                if next.contains(x) {
                    let k = choose|k: int| 0 <= k < next.len() && next[k] == x;
                    if k < i {
                        assert(prev[k] == x);
                    }
                }
                if prev.contains(x) {
                    let k = choose|k: int| 0 <= k < prev.len() && prev[k] == x;
                    assert(next[k] == x);
                }
                if x == name@ {
                    assert(next[i as int] == x);
                }
            }
        }
        match first_requester(config, ordered, name.as_str()) {
            Some(k) => {
                let mut note = owned("required by ");
                push_str(&mut note, ordered[k].as_str());
                proof {
                    assert(os[k as int] == ordered@[k as int]@);
                }
                let ghost before = notes@;
                notes.insert(name.clone(), note);
                proof {
                    assert forall|x: Seq<char>| #[trigger] has_key(notes@, x) implies exists|q: Seq<char>| {
                        &&& is_requester(*config, os, x, q)
                        &&& lookup(notes@, x)->0@ == required_by_note(q)
                        &&& forall|q2: Seq<char>| #[trigger] is_requester(*config, os, x, q2) ==> !lex_lt(q2, q)
                    } by {
                        if x == name@ {
                            let q = os[k as int];
                            assert(is_requester(*config, os, x, q));
                            assert(lookup(notes@, x)->0@ == required_by_note(q));
                        } else {
                            assert(has_key(before, x));
                            assert(lookup(notes@, x) == lookup(before, x));
                        }
                    }
                }
            },
            None => {},
        }
        i = i + 1;
    }
    assert(os.take(ordered@.len() as int) =~= os);
    notes
}

/// The action `package apply` takes on a package: update it if it is installed, else install it.
pub open spec fn apply_action(installed: Seq<Seq<char>>, n: Seq<char>) -> Action {
    if installed.contains(n) {
        Action::Update
    } else {
        Action::Install
    }
}

/// Pairs each package of the ordered set with the action `package apply`
/// takes on it: update what is installed, install the rest.
pub fn classify_actions(ordered: &[String], installed: &[String]) -> (r: Vec<(String, Action)>)
    ensures
        r@.len() == ordered@.len(),
        forall|i: int| 0 <= i < ordered@.len() ==> (#[trigger] r@[i]).0@ == ordered@[i]@
            && r@[i].1 == apply_action(strs(installed@), ordered@[i]@),
{
    let mut r: Vec<(String, Action)> = Vec::new();
    let mut i: usize = 0;
    while i < ordered.len()
        invariant
            i <= ordered@.len(),
            r@.len() == i,
            forall|j: int| 0 <= j < i ==> (#[trigger] r@[j]).0@ == ordered@[j]@
                && r@[j].1 == apply_action(strs(installed@), ordered@[j]@),
        decreases ordered.len() - i,
    {
        let a = if contains_str(installed, ordered[i].as_str()) { Action::Update } else { Action::Install };
        r.push((ordered[i].clone(), a));
        i = i + 1;
    }
    r
}

/// The packages `package uninstall` works on: every installed one with
/// `--all`, else those named.
pub fn uninstall_to(packages: &[String], all: bool, installed: &[String]) -> (r: Vec<String>)
    ensures
        all ==> r@ == installed@,
        !all ==> r@ == packages@,
{
    if all {
        crate::config::clone_strings(installed)
    } else {
        crate::config::clone_strings(packages)
    }
}

/// The message of a script that exited unsuccessfully: its exit code, or
/// `unknown` when it has none (it was ended by a signal).
pub open spec fn script_failed_message(code: Option<i32>) -> Seq<char> {
    "Script failed with exit code "@ + match code {
        Some(c) => crate::text::signed_decimal(c as int),
        None => "unknown"@,
    }
}

/// The error for a script that exited unsuccessfully.
pub fn script_failed_error(code: Option<i32>) -> (r: crate::error::Failure)
    ensures
        r matches crate::error::Failure::Homeos(e) && e.reason == crate::error::reasons::SCRIPT_FAILED
            && e.message@ == script_failed_message(code),
{
    let mut m = owned("Script failed with exit code ");
    match code {
        Some(c) => crate::text::push_i32(&mut m, c),
        None => push_str(&mut m, "unknown"),
    }
    crate::error::Failure::Homeos(crate::error::HomeosError::new(crate::error::reasons::SCRIPT_FAILED, m))
}

/// The line announcing that an action's script runs for a package.
pub fn progress_line(action: Action, name: &str) -> (r: String)
    ensures
        r@ == crate::plan::action_gerund(action) + " "@ + name@ + "..."@,
{
    let mut r = owned(action.gerund());
    push_str(&mut r, " ");
    push_str(&mut r, name);
    push_str(&mut r, "...");
    r
}

/// The line for a package whose script file is missing.
pub fn script_missing_line(path: &str) -> (r: String)
    ensures
        r@ == "Error: Script not found: "@ + path@,
{
    crate::registry::message2("Error: Script not found: ", path)
}

/// The path of the script an action runs for a package: the package's
/// directory under the packages directory, then the script's file name.
pub fn script_path(ctx: &crate::context::Context, pkg: &crate::config::PackageConfig, name: &str, action: Action, is_windows: bool) -> (r: String)
    ensures
        r@ == crate::context::path_join(crate::context::path_join(crate::context::path_join(ctx.dir(), "packages"@, ctx.sep()),
            name@, ctx.sep()), crate::shell::script_name(*pkg, action, is_windows), ctx.sep()),
{
    let dir = crate::context::join_path(ctx.packages_dir().as_str(), name, ctx.separator());
    let file = crate::shell::resolve_script_name_for(pkg, action, is_windows);
    crate::context::join_path(dir.as_str(), file.as_str(), ctx.separator())
}

/// The packages an action covers, and the notes shown next to those it pulled
/// in: installing covers every transitive dependency too, uninstalling every
/// package that transitively depends on one requested, updating exactly the
/// packages requested.
pub fn run_action(config: &Config, packages: &[String], action: Action) -> (r: (Vec<String>, StrMap<String>))
    ensures
        action == Action::Update ==> r.0@ == packages@ && r.1@.len() == 0,
        action == Action::Install ==> {
            &&& strs(r.0@).no_duplicates()
            &&& forall|x: Seq<char>| strs(r.0@).contains(x) <==> crate::deps::reaches(*config, strs(packages@), x)
            &&& forall|x: Seq<char>| #[trigger] has_key(r.1@, x) == (strs(r.0@).contains(x) && !strs(packages@).contains(x))
            &&& forall|x: Seq<char>| #[trigger] lookup(r.1@, x) is Some ==> exists|q: Seq<char>|
                strs(r.0@).contains(q) && #[trigger] depends(*config, q, x) && lookup(r.1@, x)->0@ == required_by_note(q)
        },
        action == Action::Uninstall ==> {
            &&& strs(r.0@).no_duplicates()
            &&& forall|x: Seq<char>| strs(r.0@).contains(x) <==> crate::deps::reached_by(*config, strs(packages@), x)
            &&& forall|x: Seq<char>| #[trigger] has_key(r.1@, x) == (strs(r.0@).contains(x) && !strs(packages@).contains(x))
            &&& forall|x: Seq<char>| #[trigger] lookup(r.1@, x) is Some ==> exists|q: Seq<char>|
                strs(r.0@).contains(q) && #[trigger] depends(*config, x, q) && lookup(r.1@, x)->0@ == crate::deps::depends_on_note(q)
        },
{
    match action {
        Action::Install => crate::deps::expand_dependencies(config, packages),
        Action::Uninstall => crate::deps::expand_reverse_dependencies(config, packages),
        Action::Update => (crate::config::clone_strings(packages), StrMap::new()),
    }
}

proof fn lemma_reverse_index(s: Seq<Seq<char>>, m: int)
    requires
        0 <= m < s.len(),
    ensures
        s.reverse()[m] == s[s.len() - 1 - m],
        s.reverse().len() == s.len(),
{
}

proof fn lemma_reverse_contains(s: Seq<Seq<char>>, x: Seq<char>)
    ensures
        s.reverse().contains(x) <==> s.contains(x),
{
    if s.contains(x) {
        let i = choose|i: int| 0 <= i < s.len() && s[i] == x;
        lemma_reverse_index(s, s.len() - 1 - i);
    }
    if s.reverse().contains(x) {
        let i = choose|i: int| 0 <= i < s.reverse().len() && s.reverse()[i] == x;
        lemma_reverse_index(s, i);
    }
}

/// Reversing an order in which dependencies come first puts dependents first.
proof fn lemma_reverse_dependents_first(config: Config, s: Seq<Seq<char>>)
    requires
        s.no_duplicates(),
        forall|k: int, d: Seq<char>| 0 <= k < s.len() && #[trigger] depends(config, s[k], d) && s.contains(d)
            ==> s.take(k).contains(d),
    ensures
        forall|m: int, d: Seq<char>| 0 <= m < s.len() && #[trigger] depends(config, d, s.reverse()[m]) && s.reverse().contains(d)
            ==> s.reverse().take(m).contains(d),
{
    let r = s.reverse();
    assert forall|m: int, d: Seq<char>| 0 <= m < s.len() && #[trigger] depends(config, d, r[m]) && r.contains(d)
        implies r.take(m).contains(d) by {
        lemma_reverse_contains(s, d);
        lemma_reverse_index(s, m);
        let kk = choose|kk: int| 0 <= kk < s.len() && s[kk] == d;
        let t = s.len() - 1 - m;
        assert(depends(config, s[kk], s[t]));
        assert(s.contains(s[t]));
        assert(s.take(kk).contains(s[t]));
        let u = choose|u: int| 0 <= u < s.take(kk).len() && s.take(kk)[u] == s[t];
        assert(s[u] == s[t]);
        assert(u == t);
        lemma_reverse_index(s, s.len() - 1 - kk);
        assert(r.take(m)[s.len() - 1 - kk] == d);
    }
}

/// The order in which an action runs the packages it covers, and those it
/// skips because they wait on a dependency cycle: installing runs each
/// package after its dependencies, uninstalling runs that order backwards
/// (dependents first), updating runs the packages as given. Each covered
/// package is either run or set aside, and one set aside has a dependency.
pub fn execution_order(config: &Config, covered: &[String], action: Action) -> (r: TopoOrder)
    ensures
        action == Action::Update ==> strs(r.sorted@) == strs(covered@) && r.cycle@.len() == 0,
        action == Action::Install ==> is_run_order(*config, strs(covered@), strs(r.sorted@))
            && strs(r.cycle@) == left_out(strs(covered@), strs(r.sorted@)),
        action == Action::Uninstall ==> is_run_order(*config, strs(covered@), strs(r.sorted@).reverse())
            && strs(r.cycle@) == left_out(strs(covered@), strs(r.sorted@).reverse()),
        forall|x: Seq<char>| #[trigger] strs(r.sorted@).contains(x) ==> strs(covered@).contains(x),
        forall|x: Seq<char>| #[trigger] strs(covered@).contains(x)
            ==> (strs(r.sorted@).contains(x) <==> !strs(r.cycle@).contains(x)),
        forall|x: Seq<char>| #[trigger] strs(r.cycle@).contains(x) ==> strs(covered@).contains(x)
            && exists|d: Seq<char>| #[trigger] depends(*config, x, d),
        action != Action::Update ==> strs(r.sorted@).no_duplicates(),
        action != Action::Update ==> forall|x: Seq<char>| #[trigger] strs(r.cycle@).contains(x)
            <==> (strs(covered@).contains(x) && crate::topo::waits_on_cycle(*config, |y: Seq<char>| strs(covered@).contains(y), x)),
        action == Action::Install ==> forall|k: int, d: Seq<char>|
            0 <= k < r.sorted@.len() && #[trigger] depends(*config, strs(r.sorted@)[k], d) && strs(r.sorted@).contains(d)
                ==> strs(r.sorted@).take(k).contains(d),
        action == Action::Uninstall ==> forall|k: int, d: Seq<char>|
            0 <= k < r.sorted@.len() && #[trigger] depends(*config, d, strs(r.sorted@)[k]) && strs(r.sorted@).contains(d)
                ==> strs(r.sorted@).take(k).contains(d),
{
    match action {
        Action::Update => TopoOrder { sorted: crate::config::clone_strings(covered), cycle: Vec::new() },
        Action::Install => {
            let t = topological_sort(config, covered);
            proof {
                let cv = strs(covered@);
                let sv = strs(t.sorted@);
                let f = |x: Seq<char>| !sv.contains(x);
                assert forall|x: Seq<char>| #[trigger] sv.contains(x) implies cv.contains(x) by {
                    let k = choose|k: int| 0 <= k < sv.len() && sv[k] == x;
                }
                assert forall|x: Seq<char>| #[trigger] cv.contains(x) implies (sv.contains(x) <==> !strs(t.cycle@).contains(x)) by {
                    crate::state::lemma_keep_subset(cv, f, x);
                }
                assert forall|x: Seq<char>| #[trigger] strs(t.cycle@).contains(x) implies cv.contains(x)
                    && exists|d: Seq<char>| #[trigger] depends(*config, x, d) by {
                    crate::state::lemma_keep_subset(cv, f, x);
                }
                assert forall|k: int, d: Seq<char>|
                    0 <= k < t.sorted@.len() && #[trigger] depends(*config, sv[k], d) && sv.contains(d)
                        implies sv.take(k).contains(d) by {
                    assert(cv.contains(d));
                }
            }
            t
        },
        Action::Uninstall => {
            let t = topological_sort(config, covered);
            let sorted = reversed(&t.sorted);
            proof {
                let cv = strs(covered@);
                let sv = strs(t.sorted@);
                let rv = strs(sorted@);
                assert(rv.reverse() =~= sv);
                let f = |x: Seq<char>| !sv.contains(x);
                assert forall|x: Seq<char>| #[trigger] rv.contains(x) implies cv.contains(x) by {
                    lemma_reverse_contains(sv, x);
                    let k = choose|k: int| 0 <= k < sv.len() && sv[k] == x;
                }
                assert forall|x: Seq<char>| #[trigger] cv.contains(x) implies (rv.contains(x) <==> !strs(t.cycle@).contains(x)) by {
                    lemma_reverse_contains(sv, x);
                    crate::state::lemma_keep_subset(cv, f, x);
                }
                assert forall|x: Seq<char>| #[trigger] strs(t.cycle@).contains(x) implies cv.contains(x)
                    && exists|d: Seq<char>| #[trigger] depends(*config, x, d) by {
                    crate::state::lemma_keep_subset(cv, f, x);
                }
                assert forall|k: int, d: Seq<char>|
                    0 <= k < sv.len() && #[trigger] depends(*config, sv[k], d) && sv.contains(d)
                        implies sv.take(k).contains(d) by {
                    assert(cv.contains(d));
                }
                lemma_reverse_dependents_first(*config, sv);
                assert(sv.reverse() =~= rv);
                assert forall|a: int, b: int| 0 <= a < rv.len() && 0 <= b < rv.len() && a != b implies rv[a] != rv[b] by {
                    lemma_reverse_index(sv, a);
                    lemma_reverse_index(sv, b);
                }
            }
            TopoOrder { sorted, cycle: t.cycle }
        },
    }
}

/// The packages of `a`, then those of `b` that are not already listed.
pub fn merge_packages(a: &[String], b: &[String]) -> (r: Vec<String>)
    ensures
        strs(r@) == crate::registry::deps_after_add(strs(a@), strs(b@)),
{
    let mut r = crate::config::clone_strings(a);
    let ghost bs = strs(b@);
    let mut i: usize = 0;
    while i < b.len()
        invariant
            bs == strs(b@),
            i <= b@.len(),
            strs(r@) == crate::registry::deps_after_add(strs(a@), bs.take(i as int)),
        decreases b.len() - i,
    {
        proof {
            assert(bs.take(i + 1).drop_last() =~= bs.take(i as int));
            assert(bs.take(i + 1).last() == b@[i as int]@);
        }
        let ghost cur = strs(r@);
        if !contains_str(&r, b[i].as_str()) {
            r.push(b[i].clone());
            assert(strs(r@) =~= cur.push(b@[i as int]@));
        }
        i = i + 1;
    }
    assert(bs.take(b@.len() as int) =~= bs);
    r
}

/// The jobs `package apply` runs: each install that its install plan acts on
/// and each update that its update plan acts on, in order.
pub fn runnable_jobs(jobs: &Vec<(String, Action)>, install_enabled: &[String], update_enabled: &[String]) -> (r: Vec<(String, Action)>)
    ensures
        r@.map_values(|j: (String, Action)| (j.0@, j.1)) == jobs@.map_values(|j: (String, Action)| (j.0@, j.1)).filter(
            |j: (Seq<char>, Action)| (j.1 == Action::Install && strs(install_enabled@).contains(j.0))
                || (j.1 == Action::Update && strs(update_enabled@).contains(j.0))),
{
    let ghost jv = jobs@.map_values(|j: (String, Action)| (j.0@, j.1));
    let ghost f = |j: (Seq<char>, Action)| (j.1 == Action::Install && strs(install_enabled@).contains(j.0))
        || (j.1 == Action::Update && strs(update_enabled@).contains(j.0));
    let mut r: Vec<(String, Action)> = Vec::new();
    let mut i: usize = 0;
    while i < jobs.len()
        invariant
            jv == jobs@.map_values(|j: (String, Action)| (j.0@, j.1)),
            f == (|j: (Seq<char>, Action)| (j.1 == Action::Install && strs(install_enabled@).contains(j.0))
                || (j.1 == Action::Update && strs(update_enabled@).contains(j.0))),
            i <= jobs@.len(),
            r@.map_values(|j: (String, Action)| (j.0@, j.1)) == jv.take(i as int).filter(f),
        decreases jobs.len() - i,
    {
        let (name, action) = &jobs[i];
        proof {
            assert(jv.take(i + 1).drop_last() =~= jv.take(i as int));
            assert(jv.take(i + 1).last() == (name@, *action));
            reveal(Seq::filter);
        }
        let keep_it = match action {
            Action::Install => contains_str(install_enabled, name.as_str()),
            Action::Update => contains_str(update_enabled, name.as_str()),
            Action::Uninstall => false,
        };
        let ghost before = r@;
        if keep_it {
            r.push((name.clone(), *action));
            assert(r@.map_values(|j: (String, Action)| (j.0@, j.1)) =~= before.map_values(|j: (String, Action)| (j.0@, j.1)).push((name@, *action)));
        }
        assert(r@.map_values(|j: (String, Action)| (j.0@, j.1)) =~= jv.take(i + 1).filter(f));
        i = i + 1;
    }
    assert(jv.take(jobs@.len() as int) =~= jv);
    r
}

} // verus!
