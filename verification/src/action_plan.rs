//! The plan that `package install`, `update`, `uninstall` and `apply` show and
//! run: which packages each action runs on, in which order, and why the others
//! are skipped.
use vstd::prelude::*;
use crate::config::{Config, contains_str, dep_names, depends};
use crate::deps::{reached_by, reaches, required_by_note, depends_on_note};
use crate::error::Failure;
use crate::plan::{Action, package_not_found_message};
use crate::shell::script_name;
use crate::strmap::{StrMap, has_key, lookup};
use crate::topo::waits_on_cycle;
use crate::text::{join_lines, join_with_newlines, owned, push_str, strs};

verus! {

/// `n` is configured and its `enabled` flag is off.
pub open spec fn is_disabled(config: Config, n: Seq<char>) -> bool {
    lookup(config.packages@, n) matches Some(p) && !p.enabled
}

/// Installing `d` would need a disabled package: `d` itself or one of its
/// dependencies, directly or transitively, is disabled.
pub open spec fn dep_blocked(config: Config, d: Seq<char>) -> bool {
    exists|x: Seq<char>| #[trigger] reaches(config, seq![d], x) && is_disabled(config, x)
}

/// The first of `deps` that needs a disabled package, if any.
pub open spec fn first_blocked(config: Config, deps: Seq<Seq<char>>) -> Option<Seq<char>>
    decreases deps.len(),
{
    if deps.len() == 0 {
        None
    } else if dep_blocked(config, deps[0]) {
        Some(deps[0])
    } else {
        first_blocked(config, deps.drop_first())
    }
}

/// What a plan does with one package.
pub enum Verdict {
    Act,
    Disabled,
    DependencyDisabled(Seq<char>),
    AlreadyInstalled,
    NotInstalled,
    ScriptUnmodified(Seq<char>),
}

/// What a plan for `action` does with the configured package `n`, given the
/// installed list and the `(package, action)` pairs whose script still holds
/// the generated skeleton:
/// - installing skips a disabled package, one whose dependencies need a
///   disabled package (naming the first such dependency), one already
///   installed, and one whose install script is unmodified;
/// - updating skips a disabled package, one not installed, and one whose
///   update script is unmodified;
/// - uninstalling skips a package not installed and one whose uninstall
///   script is unmodified (a disabled package is still uninstalled).
pub open spec fn verdict(
    config: Config,
    action: Action,
    installed: Seq<Seq<char>>,
    unmodified: Seq<(Seq<char>, Action)>,
    is_windows: bool,
    n: Seq<char>,
) -> Verdict {
    let script = script_name(lookup(config.packages@, n)->0, action, is_windows);
    match action {
        Action::Install => if is_disabled(config, n) {
            Verdict::Disabled
        } else if first_blocked(config, dep_names(config, n)) is Some {
            Verdict::DependencyDisabled(first_blocked(config, dep_names(config, n))->0)
        } else if installed.contains(n) {
            Verdict::AlreadyInstalled
        } else if unmodified.contains((n, action)) {
            Verdict::ScriptUnmodified(script)
        } else {
            Verdict::Act
        },
        Action::Update => if is_disabled(config, n) {
            Verdict::Disabled
        } else if !installed.contains(n) {
            Verdict::NotInstalled
        } else if unmodified.contains((n, action)) {
            Verdict::ScriptUnmodified(script)
        } else {
            Verdict::Act
        },
        Action::Uninstall => if !installed.contains(n) {
            Verdict::NotInstalled
        } else if unmodified.contains((n, action)) {
            Verdict::ScriptUnmodified(script)
        } else {
            Verdict::Act
        },
    }
}

/// No action runs a script that still is the generated skeleton.
pub proof fn law_unmodified_script_never_runs(
    config: Config,
    action: Action,
    installed: Seq<Seq<char>>,
    unmodified: Seq<(Seq<char>, Action)>,
    is_windows: bool,
    n: Seq<char>,
)
    requires
        unmodified.contains((n, action)),
    ensures
        !(verdict(config, action, installed, unmodified, is_windows, n) is Act),
{
}

/// Updating never runs a disabled package: it is skipped as disabled.
pub proof fn law_update_skips_disabled(
    config: Config,
    installed: Seq<Seq<char>>,
    unmodified: Seq<(Seq<char>, Action)>,
    is_windows: bool,
    n: Seq<char>,
)
    requires
        is_disabled(config, n),
    ensures
        verdict(config, Action::Update, installed, unmodified, is_windows, n) == Verdict::Disabled,
{
}

/// Installing never runs a disabled package, nor one that is already installed.
pub proof fn law_install_skips_disabled_and_installed(
    config: Config,
    installed: Seq<Seq<char>>,
    unmodified: Seq<(Seq<char>, Action)>,
    is_windows: bool,
    n: Seq<char>,
)
    ensures
        is_disabled(config, n) ==> verdict(config, Action::Install, installed, unmodified, is_windows, n) == Verdict::Disabled,
        installed.contains(n) ==> !(verdict(config, Action::Install, installed, unmodified, is_windows, n) is Act),
{
}

/// Updating and uninstalling run only installed packages.
pub proof fn law_update_uninstall_need_installed(
    config: Config,
    action: Action,
    installed: Seq<Seq<char>>,
    unmodified: Seq<(Seq<char>, Action)>,
    is_windows: bool,
    n: Seq<char>,
)
    requires
        action != Action::Install,
        !installed.contains(n),
    ensures
        !(verdict(config, action, installed, unmodified, is_windows, n) is Act),
{
}

/// Uninstalling runs every installed package whose uninstall script was
/// edited, whether the package is enabled or not.
pub proof fn law_uninstall_runs_installed(
    config: Config,
    installed: Seq<Seq<char>>,
    unmodified: Seq<(Seq<char>, Action)>,
    is_windows: bool,
    n: Seq<char>,
)
    requires
        installed.contains(n),
        !unmodified.contains((n, Action::Uninstall)),
    ensures
        verdict(config, Action::Uninstall, installed, unmodified, is_windows, n) is Act,
{
}

/// An installed package whose update or uninstall script still is the
/// skeleton is skipped under that script's file name (a disabled package's
/// update is skipped as disabled first).
pub proof fn law_unmodified_names_its_script(
    config: Config,
    action: Action,
    installed: Seq<Seq<char>>,
    unmodified: Seq<(Seq<char>, Action)>,
    is_windows: bool,
    n: Seq<char>,
)
    requires
        action != Action::Install,
        installed.contains(n),
        unmodified.contains((n, action)),
        !(action == Action::Update && is_disabled(config, n)),
    ensures
        verdict(config, action, installed, unmodified, is_windows, n)
            == Verdict::ScriptUnmodified(script_name(lookup(config.packages@, n)->0, action, is_windows)),
{
}

proof fn lemma_first_blocked_found(config: Config, deps: Seq<Seq<char>>, d: Seq<char>)
    requires
        deps.contains(d),
        dep_blocked(config, d),
    ensures
        first_blocked(config, deps) is Some,
    decreases deps.len(),
{
    if !dep_blocked(config, deps[0]) {
        let k = choose|k: int| 0 <= k < deps.len() && deps[k] == d;
        assert(k > 0);
        assert(deps.drop_first()[k - 1] == d);
        lemma_first_blocked_found(config, deps.drop_first(), d);
    }
}

/// Installing never runs a package one of whose dependencies needs a
/// disabled package (that dependency, or one it needs, directly or not).
pub proof fn law_install_skips_disabled_dependency(
    config: Config,
    installed: Seq<Seq<char>>,
    unmodified: Seq<(Seq<char>, Action)>,
    is_windows: bool,
    n: Seq<char>,
    d: Seq<char>,
)
    requires
        !is_disabled(config, n),
        depends(config, n, d),
        dep_blocked(config, d),
    ensures
        verdict(config, Action::Install, installed, unmodified, is_windows, n) is DependencyDisabled,
{
    lemma_first_blocked_found(config, dep_names(config, n), d);
}

/// The values `f` picks from `s`, in order.
pub open spec fn picked<T>(s: Seq<(Seq<char>, Action)>, f: spec_fn((Seq<char>, Action)) -> Option<T>) -> Seq<T>
    decreases s.len(),
{
    if s.len() == 0 {
        Seq::empty()
    } else {
        match f(s.last()) {
            Some(t) => picked(s.drop_last(), f).push(t),
            None => picked(s.drop_last(), f),
        }
    }
}

/// A plan: the jobs to run in order, the notes shown beside packages that
/// were pulled in, and the skipped packages by reason.
pub struct ActionPlan {
    pub jobs: Vec<(String, Action)>,
    pub notes: StrMap<String>,
    pub disabled: Vec<String>,
    pub dependency_disabled: Vec<(String, String)>,
    pub already_installed: Vec<String>,
    pub not_installed: Vec<String>,
    pub circular_dependency: Vec<String>,
    pub script_unmodified: Vec<(String, String)>,
}

pub open spec fn jobs_view(v: Seq<(String, Action)>) -> Seq<(Seq<char>, Action)> {
    v.map_values(|j: (String, Action)| (j.0@, j.1))
}

pub open spec fn pairs_view(v: Seq<(String, String)>) -> Seq<(Seq<char>, Seq<char>)> {
    v.map_values(|p: (String, String)| (p.0@, p.1@))
}

pub open spec fn unmodified_view(v: Seq<(String, Action)>) -> Seq<(Seq<char>, Action)> {
    jobs_view(v)
}

/// The pickers of each list of a plan, for a given verdict function.
pub open spec fn pick_act(vf: spec_fn((Seq<char>, Action)) -> Verdict) -> spec_fn((Seq<char>, Action)) -> Option<(Seq<char>, Action)> {
    |it: (Seq<char>, Action)| if vf(it) is Act { Some(it) } else { None }
}

pub open spec fn pick_disabled(vf: spec_fn((Seq<char>, Action)) -> Verdict) -> spec_fn((Seq<char>, Action)) -> Option<Seq<char>> {
    |it: (Seq<char>, Action)| if vf(it) is Disabled { Some(it.0) } else { None }
}

pub open spec fn pick_dep_disabled(vf: spec_fn((Seq<char>, Action)) -> Verdict) -> spec_fn((Seq<char>, Action)) -> Option<(Seq<char>, Seq<char>)> {
    |it: (Seq<char>, Action)| match vf(it) {
        Verdict::DependencyDisabled(d) => Some((it.0, d)),
        _ => None,
    }
}

pub open spec fn pick_already(vf: spec_fn((Seq<char>, Action)) -> Verdict) -> spec_fn((Seq<char>, Action)) -> Option<Seq<char>> {
    |it: (Seq<char>, Action)| if vf(it) is AlreadyInstalled { Some(it.0) } else { None }
}

pub open spec fn pick_not_installed(vf: spec_fn((Seq<char>, Action)) -> Verdict) -> spec_fn((Seq<char>, Action)) -> Option<Seq<char>> {
    |it: (Seq<char>, Action)| if vf(it) is NotInstalled { Some(it.0) } else { None }
}

pub open spec fn pick_unmodified(vf: spec_fn((Seq<char>, Action)) -> Verdict) -> spec_fn((Seq<char>, Action)) -> Option<(Seq<char>, Seq<char>)> {
    |it: (Seq<char>, Action)| match vf(it) {
        Verdict::ScriptUnmodified(s) => Some((it.0, s)),
        _ => None,
    }
}

/// The verdict function of a configuration, installed list and unmodified scripts.
pub open spec fn verdict_fn(
    config: Config,
    installed: Seq<Seq<char>>,
    unmodified: Seq<(Seq<char>, Action)>,
    is_windows: bool,
) -> spec_fn((Seq<char>, Action)) -> Verdict {
    |it: (Seq<char>, Action)| verdict(config, it.1, installed, unmodified, is_windows, it.0)
}

/// `after` is `before` with the items classified and appended to each list.
pub open spec fn classified(before: ActionPlan, after: ActionPlan, items: Seq<(Seq<char>, Action)>, vf: spec_fn((Seq<char>, Action)) -> Verdict) -> bool {
    &&& jobs_view(after.jobs@) == jobs_view(before.jobs@) + picked(items, pick_act(vf))
    &&& strs(after.disabled@) == strs(before.disabled@) + picked(items, pick_disabled(vf))
    &&& pairs_view(after.dependency_disabled@) == pairs_view(before.dependency_disabled@) + picked(items, pick_dep_disabled(vf))
    &&& strs(after.already_installed@) == strs(before.already_installed@) + picked(items, pick_already(vf))
    &&& strs(after.not_installed@) == strs(before.not_installed@) + picked(items, pick_not_installed(vf))
    &&& pairs_view(after.script_unmodified@) == pairs_view(before.script_unmodified@) + picked(items, pick_unmodified(vf))
    &&& strs(after.circular_dependency@) == strs(before.circular_dependency@)
    &&& after.notes@ == before.notes@
}

/// Whether `d` needs a disabled package.
fn needs_disabled(config: &Config, d: &String) -> (b: bool)
    ensures
        b == dep_blocked(*config, d@),
{
    let one = vec![d.clone()];
    assert(strs(one@) =~= seq![d@]);
    let (closure, _) = crate::deps::expand_dependencies(config, &one);
    let mut i: usize = 0;
    while i < closure.len()
        invariant
            i <= closure@.len(),
            forall|x: Seq<char>| strs(closure@).contains(x) <==> reaches(*config, seq![d@], x),
            forall|j: int| 0 <= j < i ==> !is_disabled(*config, #[trigger] closure@[j]@),
        decreases closure.len() - i,
    {
        let dis = match config.packages.get(closure[i].as_str()) {
            Some(p) => !p.enabled,
            None => false,
        };
        if dis {
            assert(strs(closure@)[i as int] == closure@[i as int]@);
            assert(strs(closure@).contains(closure@[i as int]@));
            assert(reaches(*config, seq![d@], closure@[i as int]@));
            return true;
        }
        i = i + 1;
    }
    assert forall|x: Seq<char>| #[trigger] reaches(*config, seq![d@], x) implies !is_disabled(*config, x) by {
        assert(strs(closure@).contains(x));
        let j = choose|j: int| 0 <= j < strs(closure@).len() && strs(closure@)[j] == x;
        assert(closure@[j]@ == x);
    }
    false
}

proof fn lemma_first_blocked_step(config: Config, deps: Seq<Seq<char>>, i: int)
    requires
        0 <= i < deps.len(),
        forall|j: int| 0 <= j < i ==> !dep_blocked(config, #[trigger] deps[j]),
    ensures
        first_blocked(config, deps) == first_blocked(config, deps.subrange(i, deps.len() as int)),
    decreases i,
{
    if i > 0 {
        assert(!dep_blocked(config, deps[0]));
        let rest = deps.drop_first();
        assert forall|j: int| 0 <= j < i - 1 implies !dep_blocked(config, #[trigger] rest[j]) by {
            assert(rest[j] == deps[j + 1]);
        }
        lemma_first_blocked_step(config, rest, i - 1);
        assert(rest.subrange(i - 1, rest.len() as int) =~= deps.subrange(i, deps.len() as int));
    } else {
        assert(deps.subrange(0, deps.len() as int) =~= deps);
    }
}

/// The first dependency of `deps` that needs a disabled package.
fn first_needing_disabled(config: &Config, deps: &Vec<String>) -> (r: Option<String>)
    ensures
        match r {
            Some(d) => first_blocked(*config, strs(deps@)) == Some(d@),
            None => first_blocked(*config, strs(deps@)) is None,
        },
{
    let ghost ds = strs(deps@);
    let mut i: usize = 0;
    while i < deps.len()
        invariant
            ds == strs(deps@),
            i <= deps@.len(),
            forall|j: int| 0 <= j < i ==> !dep_blocked(*config, #[trigger] ds[j]),
        decreases deps.len() - i,
    {
        if needs_disabled(config, &deps[i]) {
            proof {
                lemma_first_blocked_step(*config, ds, i as int);
                assert(ds.subrange(i as int, ds.len() as int)[0] == ds[i as int]);
            }
            return Some(deps[i].clone());
        }
        assert(ds[i as int] == deps@[i as int]@);
        i = i + 1;
    }
    proof {
        if ds.len() > 0 {
            lemma_first_blocked_step(*config, ds, ds.len() - 1);
            let last = ds.subrange(ds.len() - 1, ds.len() as int);
            assert(last[0] == ds[ds.len() - 1]);
            assert(!dep_blocked(*config, ds[ds.len() - 1]));
            assert(last.drop_first() =~= Seq::<Seq<char>>::empty());
            assert(first_blocked(*config, last.drop_first()) is None);
        }
    }
    None
}

/// What a plan does with one package, as computed.
pub enum Decision {
    Act,
    Disabled,
    DependencyDisabled(String),
    AlreadyInstalled,
    NotInstalled,
    ScriptUnmodified(String),
}

pub open spec fn decision_view(d: Decision) -> Verdict {
    match d {
        Decision::Act => Verdict::Act,
        Decision::Disabled => Verdict::Disabled,
        Decision::DependencyDisabled(x) => Verdict::DependencyDisabled(x@),
        Decision::AlreadyInstalled => Verdict::AlreadyInstalled,
        Decision::NotInstalled => Verdict::NotInstalled,
        Decision::ScriptUnmodified(x) => Verdict::ScriptUnmodified(x@),
    }
}

/// Whether `(name, action)` is one of `pairs`.
fn has_pair(pairs: &[(String, Action)], name: &str, action: Action) -> (b: bool)
    ensures
        b == jobs_view(pairs@).contains((name@, action)),
{
    let mut i: usize = 0;
    while i < pairs.len()
        invariant
            i <= pairs@.len(),
            forall|j: int| 0 <= j < i ==> #[trigger] jobs_view(pairs@)[j] != (name@, action),
        decreases pairs.len() - i,
    {
        assert(jobs_view(pairs@)[i as int] == (pairs@[i as int].0@, pairs@[i as int].1));
        if pairs[i].1 == action && crate::text::str_eq(pairs[i].0.as_str(), name) {
            return true;
        }
        i = i + 1;
    }
    false
}

/// What a plan for `action` does with the configured package `name`.
pub fn decide(
    config: &Config,
    name: &String,
    action: Action,
    installed: &[String],
    unmodified: &[(String, Action)],
    is_windows: bool,
) -> (d: Decision)
    requires
        has_key(config.packages@, name@),
    ensures
        decision_view(d) == verdict(*config, action, strs(installed@), jobs_view(unmodified@), is_windows, name@),
        action != Action::Uninstall && is_disabled(*config, name@) ==> d is Disabled,
        jobs_view(unmodified@).contains((name@, action)) ==> !(d is Act),
        action != Action::Install && !strs(installed@).contains(name@) ==> !(d is Act),
        action == Action::Install && strs(installed@).contains(name@) ==> !(d is Act),
        action == Action::Uninstall && strs(installed@).contains(name@) && !jobs_view(unmodified@).contains((name@, action))
            ==> d is Act,
        forall|x: Seq<char>| action == Action::Install && !is_disabled(*config, name@) && #[trigger] depends(*config, name@, x)
            && dep_blocked(*config, x) ==> d is DependencyDisabled,
{
    proof {
        assert forall|x: Seq<char>| action == Action::Install && !is_disabled(*config, name@) && #[trigger] depends(*config, name@, x)
            && dep_blocked(*config, x) implies verdict(*config, action, strs(installed@), jobs_view(unmodified@), is_windows, name@)
            is DependencyDisabled by {
            law_install_skips_disabled_dependency(*config, strs(installed@), jobs_view(unmodified@), is_windows, name@, x);
        }
    }
    let pkg = match config.packages.get(name.as_str()) {
        Some(p) => p,
        None => {
            assert(false);
            return Decision::Act;
        },
    };
    let inst = contains_str(installed, name.as_str());
    let unmod = has_pair(unmodified, name.as_str(), action);
    let disabled = !pkg.enabled;
    match action {
        Action::Install => {
            if disabled {
                return Decision::Disabled;
            }
            assert(dep_names(*config, name@) == strs(pkg.depends_on@));
            match first_needing_disabled(config, &pkg.depends_on) {
                Some(d) => {
                    return Decision::DependencyDisabled(d);
                },
                None => {},
            }
            if inst {
                Decision::AlreadyInstalled
            } else if unmod {
                Decision::ScriptUnmodified(crate::shell::resolve_script_name_for(pkg, action, is_windows))
            } else {
                Decision::Act
            }
        },
        Action::Update => {
            if disabled {
                Decision::Disabled
            } else if !inst {
                Decision::NotInstalled
            } else if unmod {
                Decision::ScriptUnmodified(crate::shell::resolve_script_name_for(pkg, action, is_windows))
            } else {
                Decision::Act
            }
        },
        Action::Uninstall => {
            if !inst {
                Decision::NotInstalled
            } else if unmod {
                Decision::ScriptUnmodified(crate::shell::resolve_script_name_for(pkg, action, is_windows))
            } else {
                Decision::Act
            }
        },
    }
}

/// Classifies each `(package, action)` item and appends it to the plan's list
/// for its verdict, in order. Fails with `Package '<name>' not found` on the
/// first item that is not configured, leaving the plan as it was.
pub fn classify_into(
    plan: &mut ActionPlan,
    config: &Config,
    items: &[(String, Action)],
    installed: &[String],
    unmodified: &[(String, Action)],
    is_windows: bool,
) -> (r: Result<(), Failure>)
    ensures
        r is Ok <==> (forall|i: int| 0 <= i < items@.len() ==> has_key(config.packages@, #[trigger] items@[i].0@)),
        r is Ok ==> classified(*old(plan), *final(plan), jobs_view(items@),
            verdict_fn(*config, strs(installed@), jobs_view(unmodified@), is_windows)),
        r matches Err(e) ==> *final(plan) == *old(plan) && exists|i: int| 0 <= i < items@.len()
            && !has_key(config.packages@, #[trigger] items@[i].0@)
            && (forall|j: int| 0 <= j < i ==> has_key(config.packages@, #[trigger] items@[j].0@))
            && e == Failure::Other(e->Other_0) && e->Other_0@ == package_not_found_message(items@[i].0@),
{
    let mut k: usize = 0;
    while k < items.len()
        invariant
            k <= items@.len(),
            forall|j: int| 0 <= j < k ==> has_key(config.packages@, #[trigger] items@[j].0@),
        decreases items.len() - k,
    {
        if !config.packages.contains_key(items[k].0.as_str()) {
            let mut msg = owned("Package '");
            push_str(&mut msg, items[k].0.as_str());
            push_str(&mut msg, "' not found");
            return Err(Failure::Other(msg));
        }
        k = k + 1;
    }
    let ghost iv = jobs_view(items@);
    let ghost vf = verdict_fn(*config, strs(installed@), jobs_view(unmodified@), is_windows);
    let ghost start = *plan;
    let mut i: usize = 0;
    while i < items.len()
        invariant
            iv == jobs_view(items@),
            vf == verdict_fn(*config, strs(installed@), jobs_view(unmodified@), is_windows),
            start == *old(plan),
            i <= items@.len(),
            forall|j: int| 0 <= j < items@.len() ==> has_key(config.packages@, #[trigger] items@[j].0@),
            classified(start, *plan, iv.take(i as int), vf),
        decreases items.len() - i,
    {
        let ghost before = *plan;
        let ghost it = iv[i as int];
        proof {
            assert(iv.take(i + 1).drop_last() =~= iv.take(i as int));
            assert(iv.take(i + 1).last() == it);
            assert(it == (items@[i as int].0@, items@[i as int].1));
            assert(has_key(config.packages@, items@[i as int].0@));
        }
        let name = &items[i].0;
        let action = items[i].1;
        let d = decide(config, name, action, installed, unmodified, is_windows);
        assert(vf(it) == decision_view(d));
        match d {
            Decision::Act => {
                plan.jobs.push((name.clone(), action));
                assert(jobs_view(plan.jobs@) =~= jobs_view(before.jobs@).push(it));
            },
            Decision::Disabled => {
                plan.disabled.push(name.clone());
                assert(strs(plan.disabled@) =~= strs(before.disabled@).push(it.0));
            },
            Decision::DependencyDisabled(x) => {
                let ghost xv = x@;
                plan.dependency_disabled.push((name.clone(), x));
                assert(pairs_view(plan.dependency_disabled@) =~= pairs_view(before.dependency_disabled@).push((it.0, xv)));
            },
            Decision::AlreadyInstalled => {
                plan.already_installed.push(name.clone());
                assert(strs(plan.already_installed@) =~= strs(before.already_installed@).push(it.0));
            },
            Decision::NotInstalled => {
                plan.not_installed.push(name.clone());
                assert(strs(plan.not_installed@) =~= strs(before.not_installed@).push(it.0));
            },
            Decision::ScriptUnmodified(x) => {
                let ghost xv = x@;
                plan.script_unmodified.push((name.clone(), x));
                assert(pairs_view(plan.script_unmodified@) =~= pairs_view(before.script_unmodified@).push((it.0, xv)));
            },
        }
        proof {
            assert(classified(start, *plan, iv.take(i + 1), vf));
        }
        i = i + 1;
    }
    proof {
        assert(iv.take(items@.len() as int) =~= iv);
    }
    Ok(())
}

/// The words shown for the packages an action runs on.
pub open spec fn done_word(a: Action) -> Seq<char> {
    match a {
        Action::Install => "installed"@,
        Action::Update => "updated"@,
        Action::Uninstall => "uninstalled"@,
    }
}

/// ` (<note>)` for a package with a note, nothing otherwise.
pub open spec fn note_suffix(notes: Seq<(Seq<char>, String)>, n: Seq<char>) -> Seq<char> {
    match lookup(notes, n) {
        Some(v) => " ("@ + v@ + ")"@,
        None => Seq::empty(),
    }
}

/// Picks the names of the jobs of action `a`.
pub open spec fn of_action(a: Action) -> spec_fn((Seq<char>, Action)) -> Option<Seq<char>> {
    |j: (Seq<char>, Action)| if j.1 == a { Some(j.0) } else { None }
}

/// The section listing the packages action `a` runs on (none when there are none).
pub open spec fn section_lines(jobs: Seq<(Seq<char>, Action)>, a: Action, notes: Seq<(Seq<char>, String)>) -> Seq<Seq<char>> {
    let names = picked(jobs, of_action(a));
    if names.len() == 0 {
        Seq::empty()
    } else {
        seq!["The following packages will be "@ + done_word(a) + ":"@] + names.map_values(
            |n: Seq<char>| "  "@ + n + note_suffix(notes, n),
        )
    }
}

/// Each skipped package with its reason, grouped by reason in this order:
/// disabled, dependency disabled, already installed, not installed, circular
/// dependency, script unmodified.
pub open spec fn skipped_items(p: ActionPlan) -> Seq<Seq<char>> {
    strs(p.disabled@).map_values(|n: Seq<char>| n + " (disabled)"@)
        + pairs_view(p.dependency_disabled@).map_values(|e: (Seq<char>, Seq<char>)| e.0 + " (dependency disabled: "@ + e.1 + ")"@)
        + strs(p.already_installed@).map_values(|n: Seq<char>| n + " (already installed)"@)
        + strs(p.not_installed@).map_values(|n: Seq<char>| n + " (not installed)"@)
        + strs(p.circular_dependency@).map_values(|n: Seq<char>| n + " (circular dependency)"@)
        + pairs_view(p.script_unmodified@).map_values(|e: (Seq<char>, Seq<char>)| e.0 + " (script unmodified: "@ + e.1 + ")"@)
}

/// The skipped section (none when nothing is skipped).
pub open spec fn skipped_lines(p: ActionPlan) -> Seq<Seq<char>> {
    if skipped_items(p).len() == 0 {
        Seq::empty()
    } else {
        seq!["The following packages will be skipped:"@] + skipped_items(p).map_values(|x: Seq<char>| "  "@ + x)
    }
}

/// The lines of a plan: the packages to install, to update, to uninstall, then those skipped.
pub open spec fn plan_lines(p: ActionPlan) -> Seq<Seq<char>> {
    section_lines(jobs_view(p.jobs@), Action::Install, p.notes@) + section_lines(jobs_view(p.jobs@), Action::Update, p.notes@)
        + section_lines(jobs_view(p.jobs@), Action::Uninstall, p.notes@) + skipped_lines(p)
}

/// Appends `name + suffix` for each name.
fn push_suffixed(items: &mut Vec<String>, names: &Vec<String>, suffix: &str)
    ensures
        strs(final(items)@) == strs(old(items)@) + strs(names@).map_values(|n: Seq<char>| n + suffix@),
{
    let ghost start = strs(items@);
    let ghost nv = strs(names@);
    let ghost f = |n: Seq<char>| n + suffix@;
    let mut i: usize = 0;
    while i < names.len()
        invariant
            nv == strs(names@),
            f == (|n: Seq<char>| n + suffix@),
            i <= names@.len(),
            strs(items@) == start + nv.take(i as int).map_values(f),
        decreases names.len() - i,
    {
        let mut l = owned(names[i].as_str());
        push_str(&mut l, suffix);
        let ghost before = strs(items@);
        items.push(l);
        proof {
            assert(strs(items@) =~= before.push(f(nv[i as int])));
            assert(nv.take(i + 1).map_values(f) =~= nv.take(i as int).map_values(f).push(f(nv[i as int])));
        }
        i = i + 1;
    }
    assert(nv.take(names@.len() as int) =~= nv);
}

/// Appends `name + prefix + detail + ")"` for each pair.
fn push_pairs(items: &mut Vec<String>, pairs: &Vec<(String, String)>, prefix: &str)
    ensures
        strs(final(items)@) == strs(old(items)@) + pairs_view(pairs@).map_values(|e: (Seq<char>, Seq<char>)| e.0 + prefix@ + e.1 + ")"@),
{
    let ghost start = strs(items@);
    let ghost pv = pairs_view(pairs@);
    let ghost f = |e: (Seq<char>, Seq<char>)| e.0 + prefix@ + e.1 + ")"@;
    let mut i: usize = 0;
    while i < pairs.len()
        invariant
            pv == pairs_view(pairs@),
            f == (|e: (Seq<char>, Seq<char>)| e.0 + prefix@ + e.1 + ")"@),
            i <= pairs@.len(),
            strs(items@) == start + pv.take(i as int).map_values(f),
        decreases pairs.len() - i,
    {
        let mut l = owned(pairs[i].0.as_str());
        push_str(&mut l, prefix);
        push_str(&mut l, pairs[i].1.as_str());
        push_str(&mut l, ")");
        let ghost before = strs(items@);
        items.push(l);
        proof {
            assert(pv[i as int] == (pairs@[i as int].0@, pairs@[i as int].1@));
            assert(strs(items@) =~= before.push(f(pv[i as int])));
            assert(pv.take(i + 1).map_values(f) =~= pv.take(i as int).map_values(f).push(f(pv[i as int])));
        }
        i = i + 1;
    }
    assert(pv.take(pairs@.len() as int) =~= pv);
}

/// Appends the section of the jobs of action `a`.
fn push_section(lines: &mut Vec<String>, jobs: &Vec<(String, Action)>, a: Action, notes: &StrMap<String>)
    ensures
        strs(final(lines)@) == strs(old(lines)@) + section_lines(jobs_view(jobs@), a, notes@),
{
    let ghost jv = jobs_view(jobs@);
    let mut names: Vec<String> = Vec::new();
    let mut i: usize = 0;
    while i < jobs.len()
        invariant
            jv == jobs_view(jobs@),
            i <= jobs@.len(),
            strs(names@) == picked(jv.take(i as int), of_action(a)),
        decreases jobs.len() - i,
    {
        proof {
            assert(jv.take(i + 1).drop_last() =~= jv.take(i as int));
            assert(jv.take(i + 1).last() == (jobs@[i as int].0@, jobs@[i as int].1));
        }
        if jobs[i].1 == a {
            let ghost before = strs(names@);
            names.push(jobs[i].0.clone());
            assert(strs(names@) =~= before.push(jobs@[i as int].0@));
        }
        i = i + 1;
    }
    assert(jv.take(jobs@.len() as int) =~= jv);
    if names.len() == 0 {
        assert(strs(lines@) =~= strs(lines@) + Seq::<Seq<char>>::empty());
        return;
    }
    let ghost nv = strs(names@);
    let ghost g = |n: Seq<char>| "  "@ + n + note_suffix(notes@, n);
    let mut h = owned("The following packages will be ");
    push_str(&mut h, match a {
        Action::Install => "installed",
        Action::Update => "updated",
        Action::Uninstall => "uninstalled",
    });
    push_str(&mut h, ":");
    let ghost start = strs(lines@);
    let ghost hv = h@;
    lines.push(h);
    assert(strs(lines@) =~= start + seq![hv]);
    let mut k: usize = 0;
    while k < names.len()
        invariant
            nv == strs(names@),
            g == (|n: Seq<char>| "  "@ + n + note_suffix(notes@, n)),
            k <= names@.len(),
            strs(lines@) == start + seq![hv] + nv.take(k as int).map_values(g),
        decreases names.len() - k,
    {
        let mut l = owned("  ");
        push_str(&mut l, names[k].as_str());
        assert(nv[k as int] == names@[k as int]@);
        match notes.get(names[k].as_str()) {
            Some(v) => {
                push_str(&mut l, " (");
                push_str(&mut l, v.as_str());
                push_str(&mut l, ")");
                assert(l@ == g(nv[k as int]));
            },
            None => {
                assert(l@ =~= g(nv[k as int]));
            },
        }
        let ghost before = strs(lines@);
        lines.push(l);
        proof {
            assert(strs(lines@) =~= before.push(g(nv[k as int])));
            assert(nv.take(k + 1).map_values(g) =~= nv.take(k as int).map_values(g).push(g(nv[k as int])));
        }
        k = k + 1;
    }
    assert(nv.take(names@.len() as int) =~= nv);
}

impl ActionPlan {
    /// The plan's text: the packages to install, to update and to uninstall
    /// (each with its note), then one section of the skipped packages with
    /// their reasons.
    pub fn display(&self) -> (r: String)
        ensures
            r@ == join_lines(plan_lines(*self)),
    {
        let mut lines: Vec<String> = Vec::new();
        push_section(&mut lines, &self.jobs, Action::Install, &self.notes);
        push_section(&mut lines, &self.jobs, Action::Update, &self.notes);
        push_section(&mut lines, &self.jobs, Action::Uninstall, &self.notes);
        let mut items: Vec<String> = Vec::new();
        push_suffixed(&mut items, &self.disabled, " (disabled)");
        push_pairs(&mut items, &self.dependency_disabled, " (dependency disabled: ");
        push_suffixed(&mut items, &self.already_installed, " (already installed)");
        push_suffixed(&mut items, &self.not_installed, " (not installed)");
        push_suffixed(&mut items, &self.circular_dependency, " (circular dependency)");
        push_pairs(&mut items, &self.script_unmodified, " (script unmodified: ");
        assert(strs(items@) =~= skipped_items(*self));
        let ghost base = strs(lines@);
        if items.len() > 0 {
            lines.push(owned("The following packages will be skipped:"));
            let ghost iv = strs(items@);
            let ghost g = |x: Seq<char>| "  "@ + x;
            let ghost start = strs(lines@);
            let mut k: usize = 0;
            while k < items.len()
                invariant
                    iv == strs(items@),
                    g == (|x: Seq<char>| "  "@ + x),
                    k <= items@.len(),
                    strs(lines@) == start + iv.take(k as int).map_values(g),
                decreases items.len() - k,
            {
                let mut l = owned("  ");
                push_str(&mut l, items[k].as_str());
                let ghost before = strs(lines@);
                lines.push(l);
                proof {
                    assert(strs(lines@) =~= before.push(g(iv[k as int])));
                    assert(iv.take(k + 1).map_values(g) =~= iv.take(k as int).map_values(g).push(g(iv[k as int])));
                }
                k = k + 1;
            }
            assert(iv.take(items@.len() as int) =~= iv);
        }
        assert(strs(lines@) =~= plan_lines(*self));
        join_with_newlines(&lines)
    }

    /// Whether the plan runs nothing.
    pub fn is_empty(&self) -> (b: bool)
        ensures
            b == (self.jobs@.len() == 0),
    {
        self.jobs.len() == 0
    }
}

proof fn lemma_picked_contains<T>(s: Seq<(Seq<char>, Action)>, f: spec_fn((Seq<char>, Action)) -> Option<T>, v: T)
    ensures
        picked(s, f).contains(v) <==> exists|i: int| 0 <= i < s.len() && #[trigger] f(s[i]) == Some(v),
    decreases s.len(),
{
    if s.len() > 0 {
        let r = s.drop_last();
        lemma_picked_contains(r, f, v);
        if picked(s, f).contains(v) {
            match f(s.last()) {
                Some(t) => {
                    if t == v {
                        assert(f(s[s.len() - 1]) == Some(v));
                    } else {
                        let k = choose|k: int| 0 <= k < picked(s, f).len() && picked(s, f)[k] == v;
                        assert(picked(r, f)[k] == v);
                        let i = choose|i: int| 0 <= i < r.len() && #[trigger] f(r[i]) == Some(v);
                        assert(s[i] == r[i]);
                    }
                },
                None => {
                    let i = choose|i: int| 0 <= i < r.len() && #[trigger] f(r[i]) == Some(v);
                    assert(s[i] == r[i]);
                },
            }
        }
        if exists|i: int| 0 <= i < s.len() && #[trigger] f(s[i]) == Some(v) {
            let i = choose|i: int| 0 <= i < s.len() && #[trigger] f(s[i]) == Some(v);
            if i == s.len() - 1 {
                assert(picked(s, f).last() == v);
                assert(picked(s, f).contains(picked(s, f)[picked(s, f).len() - 1]));
            } else {
                assert(r[i] == s[i]);
                assert(f(r[i]) == Some(v));
                let k = choose|k: int| 0 <= k < picked(r, f).len() && picked(r, f)[k] == v;
                assert(picked(s, f)[k] == v);
            }
        }
    }
}

/// The positions in `s` of the items `pick_act(vf)` keeps.
pub open spec fn act_positions(s: Seq<(Seq<char>, Action)>, vf: spec_fn((Seq<char>, Action)) -> Verdict) -> Seq<int>
    decreases s.len(),
{
    if s.len() == 0 {
        Seq::empty()
    } else if vf(s.last()) is Act {
        act_positions(s.drop_last(), vf).push(s.len() - 1)
    } else {
        act_positions(s.drop_last(), vf)
    }
}

proof fn lemma_act_positions(s: Seq<(Seq<char>, Action)>, vf: spec_fn((Seq<char>, Action)) -> Verdict)
    ensures
        act_positions(s, vf).len() == picked(s, pick_act(vf)).len(),
        forall|i: int| 0 <= i < act_positions(s, vf).len() ==> 0 <= #[trigger] act_positions(s, vf)[i] < s.len()
            && picked(s, pick_act(vf))[i] == s[act_positions(s, vf)[i]],
        forall|i: int, j: int| 0 <= i < j < act_positions(s, vf).len()
            ==> #[trigger] act_positions(s, vf)[i] < #[trigger] act_positions(s, vf)[j],
    decreases s.len(),
{
    if s.len() > 0 {
        let r = s.drop_last();
        lemma_act_positions(r, vf);
        let pr = act_positions(r, vf);
        assert forall|i: int| 0 <= i < pr.len() implies pr[i] < s.len() - 1 && s[pr[i]] == r[pr[i]] by {}
    }
}

/// Jobs in which each package comes after those of its dependencies that also run.
pub open spec fn deps_first(config: Config, jobs: Seq<(Seq<char>, Action)>) -> bool {
    forall|i: int, j: int| 0 <= i < jobs.len() && 0 <= j < jobs.len() && jobs[i].0 != jobs[j].0
        && #[trigger] depends(config, jobs[j].0, jobs[i].0) ==> i < j
}

/// Jobs in which each package comes after those that depend on it and also run.
pub open spec fn dependents_first(config: Config, jobs: Seq<(Seq<char>, Action)>) -> bool {
    forall|i: int, j: int| 0 <= i < jobs.len() && 0 <= j < jobs.len() && jobs[i].0 != jobs[j].0
        && #[trigger] depends(config, jobs[i].0, jobs[j].0) ==> i < j
}

proof fn lemma_order_kept(config: Config, s: Seq<(Seq<char>, Action)>, vf: spec_fn((Seq<char>, Action)) -> Verdict)
    ensures
        deps_first(config, s) ==> deps_first(config, picked(s, pick_act(vf))),
        dependents_first(config, s) ==> dependents_first(config, picked(s, pick_act(vf))),
{
    lemma_act_positions(s, vf);
    let t = picked(s, pick_act(vf));
    let idx = act_positions(s, vf);
    if deps_first(config, s) {
        assert forall|i: int, j: int| 0 <= i < t.len() && 0 <= j < t.len() && t[i].0 != t[j].0
            && #[trigger] depends(config, t[j].0, t[i].0) implies i < j by {
            assert(t[i] == s[idx[i]]);
            assert(t[j] == s[idx[j]]);
            assert(depends(config, s[idx[j]].0, s[idx[i]].0));
            if j < i {
                assert(idx[j] < idx[i]);
            }
        }
    }
    if dependents_first(config, s) {
        assert forall|i: int, j: int| 0 <= i < t.len() && 0 <= j < t.len() && t[i].0 != t[j].0
            && #[trigger] depends(config, t[i].0, t[j].0) implies i < j by {
            assert(t[i] == s[idx[i]]);
            assert(t[j] == s[idx[j]]);
            assert(depends(config, s[idx[i]].0, s[idx[j]].0));
            if j < i {
                assert(idx[j] < idx[i]);
            }
        }
    }
}

/// Each name paired with `action`.
fn with_action(names: &Vec<String>, action: Action) -> (r: Vec<(String, Action)>)
    ensures
        jobs_view(r@) == strs(names@).map_values(|n: Seq<char>| (n, action)),
{
    let ghost nv = strs(names@);
    let mut r: Vec<(String, Action)> = Vec::new();
    let mut i: usize = 0;
    while i < names.len()
        invariant
            nv == strs(names@),
            i <= names@.len(),
            jobs_view(r@) == nv.take(i as int).map_values(|n: Seq<char>| (n, action)),
        decreases names.len() - i,
    {
        let ghost before = jobs_view(r@);
        r.push((names[i].clone(), action));
        assert(jobs_view(r@) =~= before.push((nv[i as int], action)));
        assert(nv.take(i + 1).map_values(|n: Seq<char>| (n, action)) =~= nv.take(i as int).map_values(|n: Seq<char>| (n, action)).push((nv[i as int], action)));
        i = i + 1;
    }
    assert(nv.take(names@.len() as int) =~= nv);
    r
}

/// The packages an action on `packages` covers: installing, the packages and
/// all they depend on; uninstalling, the packages and all that depend on
/// them; updating, the packages themselves.
pub open spec fn covers(config: Config, packages: Seq<Seq<char>>, action: Action, x: Seq<char>) -> bool {
    match action {
        Action::Install => reaches(config, packages, x),
        Action::Uninstall => reached_by(config, packages, x),
        Action::Update => packages.contains(x),
    }
}

/// The plan of `package install`, `update` or `uninstall` for `packages`:
/// the packages the action covers, in the order they run (dependencies first
/// for installing, dependents first for uninstalling, as given for
/// updating), classified by `verdict`; those waiting on a dependency cycle are
/// set aside. Fails on the first covered package that is not configured.
pub fn action_plan(
    config: &Config,
    packages: &[String],
    action: Action,
    installed: &[String],
    unmodified: &[(String, Action)],
    is_windows: bool,
) -> (r: Result<ActionPlan, Failure>)
    ensures
        r is Ok <==> (forall|x: Seq<char>| #[trigger] covers(*config, strs(packages@), action, x) ==> has_key(config.packages@, x)),
        r matches Err(e) ==> e is Other,
        r matches Ok(p) ==> {
            let vf = verdict_fn(*config, strs(installed@), jobs_view(unmodified@), is_windows);
            let runs = |x: Seq<char>| covers(*config, strs(packages@), action, x) && !strs(p.circular_dependency@).contains(x);
            &&& forall|j: int| 0 <= j < p.jobs@.len() ==> (#[trigger] p.jobs@[j]).1 == action
            &&& forall|x: Seq<char>| #[trigger] jobs_view(p.jobs@).contains((x, action)) <==> (runs(x) && vf((x, action)) is Act)
            &&& forall|x: Seq<char>| #[trigger] strs(p.disabled@).contains(x) <==> (runs(x) && vf((x, action)) is Disabled)
            &&& forall|x: Seq<char>| #[trigger] strs(p.already_installed@).contains(x) <==> (runs(x) && vf((x, action)) is AlreadyInstalled)
            &&& forall|x: Seq<char>| #[trigger] strs(p.not_installed@).contains(x) <==> (runs(x) && vf((x, action)) is NotInstalled)
            &&& forall|x: Seq<char>, d: Seq<char>| #[trigger] pairs_view(p.dependency_disabled@).contains((x, d))
                <==> (runs(x) && vf((x, action)) == Verdict::DependencyDisabled(d))
            &&& forall|x: Seq<char>, d: Seq<char>| #[trigger] pairs_view(p.script_unmodified@).contains((x, d))
                <==> (runs(x) && vf((x, action)) == Verdict::ScriptUnmodified(d))
            &&& forall|x: Seq<char>| #[trigger] strs(p.circular_dependency@).contains(x)
                <==> (action != Action::Update && covers(*config, strs(packages@), action, x)
                    && waits_on_cycle(*config, |y: Seq<char>| covers(*config, strs(packages@), action, y), x))
            &&& forall|x: Seq<char>, a: Action| #[trigger] jobs_view(unmodified@).contains((x, a))
                ==> !jobs_view(p.jobs@).contains((x, a))
            &&& action == Action::Update ==> forall|x: Seq<char>|
                covers(*config, strs(packages@), action, x) && #[trigger] is_disabled(*config, x)
                    ==> !jobs_view(p.jobs@).contains((x, action)) && strs(p.disabled@).contains(x)
            &&& action != Action::Install ==> forall|x: Seq<char>| #[trigger] covers(*config, strs(packages@), action, x)
                && !strs(installed@).contains(x) ==> !jobs_view(p.jobs@).contains((x, action))
            &&& action != Action::Install ==> forall|x: Seq<char>| #[trigger] covers(*config, strs(packages@), action, x)
                && !strs(p.circular_dependency@).contains(x) && strs(installed@).contains(x)
                && jobs_view(unmodified@).contains((x, action)) && !(action == Action::Update && is_disabled(*config, x))
                ==> pairs_view(p.script_unmodified@).contains(
                    (x, script_name(lookup(config.packages@, x)->0, action, is_windows)))
            &&& action == Action::Uninstall ==> forall|x: Seq<char>| #[trigger] covers(*config, strs(packages@), action, x)
                && !strs(p.circular_dependency@).contains(x) && strs(installed@).contains(x)
                && !jobs_view(unmodified@).contains((x, action)) ==> jobs_view(p.jobs@).contains((x, action))
            &&& action == Action::Install ==> forall|x: Seq<char>| #[trigger] strs(installed@).contains(x)
                ==> !jobs_view(p.jobs@).contains((x, action))
            &&& action == Action::Install ==> forall|x: Seq<char>, d: Seq<char>| #[trigger] depends(*config, x, d)
                && dep_blocked(*config, d) ==> !jobs_view(p.jobs@).contains((x, action))
            &&& action == Action::Update ==> jobs_view(p.jobs@)
                == picked(strs(packages@).map_values(|n: Seq<char>| (n, Action::Update)), pick_act(vf))
            &&& action == Action::Install ==> deps_first(*config, jobs_view(p.jobs@))
            &&& action == Action::Uninstall ==> dependents_first(*config, jobs_view(p.jobs@))
            &&& action == Action::Update ==> p.notes@.len() == 0
            &&& action == Action::Install ==> forall|x: Seq<char>| #[trigger] lookup(p.notes@, x) is Some ==> exists|q: Seq<char>|
                covers(*config, strs(packages@), action, q) && #[trigger] depends(*config, q, x) && lookup(p.notes@, x)->0@ == required_by_note(q)
            &&& action == Action::Uninstall ==> forall|x: Seq<char>| #[trigger] lookup(p.notes@, x) is Some ==> exists|q: Seq<char>|
                covers(*config, strs(packages@), action, q) && #[trigger] depends(*config, x, q) && lookup(p.notes@, x)->0@ == depends_on_note(q)
            &&& action != Action::Update ==> forall|x: Seq<char>| #[trigger] has_key(p.notes@, x)
                == (covers(*config, strs(packages@), action, x) && !strs(packages@).contains(x))
        },
{
    let ghost pv = strs(packages@);
    let (covered, notes) = crate::apply::run_action(config, packages, action);
    let ghost cv = strs(covered@);
    assert forall|x: Seq<char>| cv.contains(x) <==> #[trigger] covers(*config, pv, action, x) by {}
    let order = crate::apply::execution_order(config, &covered, action);
    let ghost sv = strs(order.sorted@);
    let items = with_action(&order.sorted, action);
    let ghost iv = jobs_view(items@);
    let mut plan = ActionPlan {
        jobs: Vec::new(),
        notes,
        disabled: Vec::new(),
        dependency_disabled: Vec::new(),
        already_installed: Vec::new(),
        not_installed: Vec::new(),
        circular_dependency: order.cycle,
        script_unmodified: Vec::new(),
    };
    let ghost start = plan;
    let res = classify_into(&mut plan, config, &items, installed, unmodified, is_windows);
    proof {
        assert forall|k: int| 0 <= k < items@.len() implies items@[k].0@ == #[trigger] sv[k] by {
            assert(iv[k] == (sv[k], action));
        }
    }
    match res {
        Err(e) => {
            proof {
                let i = choose|i: int| 0 <= i < items@.len() && !has_key(config.packages@, #[trigger] items@[i].0@);
                assert(items@[i].0@ == sv[i]);
                assert(iv.len() == sv.len());
                assert(sv.contains(sv[i]));
                assert(covers(*config, pv, action, sv[i]));
            }
            return Err(e);
        },
        Ok(()) => {},
    }
    proof {
        let vf = verdict_fn(*config, strs(installed@), jobs_view(unmodified@), is_windows);
        // Every covered package is configured: those run were checked, those set aside have a dependency.
        assert forall|x: Seq<char>| #[trigger] covers(*config, pv, action, x) implies has_key(config.packages@, x) by {
            assert(cv.contains(x));
            if sv.contains(x) {
                let k = choose|k: int| 0 <= k < sv.len() && sv[k] == x;
                assert(has_key(config.packages@, items@[k].0@));
            } else {
                assert(strs(plan.circular_dependency@).contains(x));
                let d = choose|d: Seq<char>| #[trigger] depends(*config, x, d);
                assert(dep_names(*config, x).contains(d));
            }
        }
        // Membership in each list.
        assert forall|x: Seq<char>| (#[trigger] sv.contains(x)) <==> (covers(*config, pv, action, x)
            && !strs(plan.circular_dependency@).contains(x)) by {}
        assert forall|x: Seq<char>, a: Action| #[trigger] iv.contains((x, a)) <==> (sv.contains(x) && a == action) by {
            if iv.contains((x, a)) {
                let k = choose|k: int| 0 <= k < iv.len() && iv[k] == (x, a);
                assert(iv[k] == (sv[k], action));
            }
            if sv.contains(x) && a == action {
                let k = choose|k: int| 0 <= k < sv.len() && sv[k] == x;
                assert(iv[k] == (x, a));
            }
        }
        assert forall|x: Seq<char>| #[trigger] jobs_view(plan.jobs@).contains((x, action))
            <==> (covers(*config, pv, action, x) && !strs(plan.circular_dependency@).contains(x) && vf((x, action)) is Act) by {
            lemma_picked_contains(iv, pick_act(vf), (x, action));
            assert(jobs_view(plan.jobs@) =~= picked(iv, pick_act(vf)));
            if jobs_view(plan.jobs@).contains((x, action)) {
                let i = choose|i: int| 0 <= i < iv.len() && #[trigger] pick_act(vf)(iv[i]) == Some((x, action));
                assert(iv.contains(iv[i]));
            }
            if sv.contains(x) && vf((x, action)) is Act {
                assert(iv.contains((x, action)));
                let i = choose|i: int| 0 <= i < iv.len() && iv[i] == (x, action);
                assert(pick_act(vf)(iv[i]) == Some((x, action)));
            }
        }
        assert forall|x: Seq<char>| #[trigger] strs(plan.disabled@).contains(x)
            <==> (covers(*config, pv, action, x) && !strs(plan.circular_dependency@).contains(x) && vf((x, action)) is Disabled) by {
            lemma_picked_contains(iv, pick_disabled(vf), x);
            assert(strs(plan.disabled@) =~= picked(iv, pick_disabled(vf)));
            if strs(plan.disabled@).contains(x) {
                let i = choose|i: int| 0 <= i < iv.len() && #[trigger] pick_disabled(vf)(iv[i]) == Some(x);
                assert(iv.contains(iv[i]));
            }
            if sv.contains(x) && vf((x, action)) is Disabled {
                assert(iv.contains((x, action)));
                let i = choose|i: int| 0 <= i < iv.len() && iv[i] == (x, action);
                assert(pick_disabled(vf)(iv[i]) == Some(x));
            }
        }
        assert forall|x: Seq<char>| #[trigger] strs(plan.already_installed@).contains(x)
            <==> (covers(*config, pv, action, x) && !strs(plan.circular_dependency@).contains(x) && vf((x, action)) is AlreadyInstalled) by {
            lemma_picked_contains(iv, pick_already(vf), x);
            assert(strs(plan.already_installed@) =~= picked(iv, pick_already(vf)));
            if strs(plan.already_installed@).contains(x) {
                let i = choose|i: int| 0 <= i < iv.len() && #[trigger] pick_already(vf)(iv[i]) == Some(x);
                assert(iv.contains(iv[i]));
            }
            if sv.contains(x) && vf((x, action)) is AlreadyInstalled {
                assert(iv.contains((x, action)));
                let i = choose|i: int| 0 <= i < iv.len() && iv[i] == (x, action);
                assert(pick_already(vf)(iv[i]) == Some(x));
            }
        }
        assert forall|x: Seq<char>| #[trigger] strs(plan.not_installed@).contains(x)
            <==> (covers(*config, pv, action, x) && !strs(plan.circular_dependency@).contains(x) && vf((x, action)) is NotInstalled) by {
            lemma_picked_contains(iv, pick_not_installed(vf), x);
            assert(strs(plan.not_installed@) =~= picked(iv, pick_not_installed(vf)));
            if strs(plan.not_installed@).contains(x) {
                let i = choose|i: int| 0 <= i < iv.len() && #[trigger] pick_not_installed(vf)(iv[i]) == Some(x);
                assert(iv.contains(iv[i]));
            }
            if sv.contains(x) && vf((x, action)) is NotInstalled {
                assert(iv.contains((x, action)));
                let i = choose|i: int| 0 <= i < iv.len() && iv[i] == (x, action);
                assert(pick_not_installed(vf)(iv[i]) == Some(x));
            }
        }
        assert forall|x: Seq<char>, d: Seq<char>| #[trigger] pairs_view(plan.dependency_disabled@).contains((x, d))
            <==> (covers(*config, pv, action, x) && !strs(plan.circular_dependency@).contains(x)
                && vf((x, action)) == Verdict::DependencyDisabled(d)) by {
            lemma_picked_contains(iv, pick_dep_disabled(vf), (x, d));
            assert(pairs_view(plan.dependency_disabled@) =~= picked(iv, pick_dep_disabled(vf)));
            if pairs_view(plan.dependency_disabled@).contains((x, d)) {
                let i = choose|i: int| 0 <= i < iv.len() && #[trigger] pick_dep_disabled(vf)(iv[i]) == Some((x, d));
                assert(iv.contains(iv[i]));
            }
            if sv.contains(x) && vf((x, action)) == Verdict::DependencyDisabled(d) {
                assert(iv.contains((x, action)));
                let i = choose|i: int| 0 <= i < iv.len() && iv[i] == (x, action);
                assert(pick_dep_disabled(vf)(iv[i]) == Some((x, d)));
            }
        }
        assert forall|x: Seq<char>, d: Seq<char>| #[trigger] pairs_view(plan.script_unmodified@).contains((x, d))
            <==> (covers(*config, pv, action, x) && !strs(plan.circular_dependency@).contains(x)
                && vf((x, action)) == Verdict::ScriptUnmodified(d)) by {
            lemma_picked_contains(iv, pick_unmodified(vf), (x, d));
            assert(pairs_view(plan.script_unmodified@) =~= picked(iv, pick_unmodified(vf)));
            if pairs_view(plan.script_unmodified@).contains((x, d)) {
                let i = choose|i: int| 0 <= i < iv.len() && #[trigger] pick_unmodified(vf)(iv[i]) == Some((x, d));
                assert(iv.contains(iv[i]));
            }
            if sv.contains(x) && vf((x, action)) == Verdict::ScriptUnmodified(d) {
                assert(iv.contains((x, action)));
                let i = choose|i: int| 0 <= i < iv.len() && iv[i] == (x, action);
                assert(pick_unmodified(vf)(iv[i]) == Some((x, d)));
            }
        }
        // What is set aside is exactly what waits on a dependency cycle.
        assert((|y: Seq<char>| cv.contains(y)) =~= (|y: Seq<char>| covers(*config, pv, action, y)));
        if action == Action::Update {
            assert forall|x: Seq<char>| !#[trigger] strs(plan.circular_dependency@).contains(x) by {}
        }
        // Every job has the plan's action.
        assert forall|j: int| 0 <= j < plan.jobs@.len() implies (#[trigger] plan.jobs@[j]).1 == action by {
            let jv = jobs_view(plan.jobs@);
            assert(jv[j] == (plan.jobs@[j].0@, plan.jobs@[j].1));
            assert(jv.contains(jv[j]));
            lemma_picked_contains(iv, pick_act(vf), jv[j]);
            assert(jv =~= picked(iv, pick_act(vf)));
            let i = choose|i: int| 0 <= i < iv.len() && #[trigger] pick_act(vf)(iv[i]) == Some(jv[j]);
            assert(iv[i] == (sv[i], action));
        }
        // Order.
        assert(jobs_view(plan.jobs@) =~= picked(iv, pick_act(vf)));
        lemma_order_kept(*config, iv, vf);
        if action == Action::Install {
            assert forall|x: Seq<char>, d: Seq<char>| #[trigger] depends(*config, x, d) && dep_blocked(*config, d)
                implies !jobs_view(plan.jobs@).contains((x, action)) by {
                if !is_disabled(*config, x) {
                    law_install_skips_disabled_dependency(*config, strs(installed@), jobs_view(unmodified@), is_windows, x, d);
                }
                assert(!(vf((x, action)) is Act));
            }
        }
        if action == Action::Update {
            assert(sv =~= pv);
            assert(iv =~= pv.map_values(|n: Seq<char>| (n, Action::Update)));
        }
        if action == Action::Install {
            assert forall|i: int, j: int| 0 <= i < iv.len() && 0 <= j < iv.len() && iv[i].0 != iv[j].0
                && #[trigger] depends(*config, iv[j].0, iv[i].0) implies i < j by {
                assert(iv[i] == (sv[i], action));
                assert(iv[j] == (sv[j], action));
                assert(sv.contains(sv[i]));
                assert(sv.take(j).contains(sv[i]));
                let u = choose|u: int| 0 <= u < sv.take(j).len() && sv.take(j)[u] == sv[i];
                assert(sv[u] == sv[i]);
            }
        }
        if action == Action::Uninstall {
            assert forall|i: int, j: int| 0 <= i < iv.len() && 0 <= j < iv.len() && iv[i].0 != iv[j].0
                && #[trigger] depends(*config, iv[i].0, iv[j].0) implies i < j by {
                assert(iv[i] == (sv[i], action));
                assert(iv[j] == (sv[j], action));
                assert(sv.contains(sv[i]));
                assert(sv.take(j).contains(sv[i]));
                let u = choose|u: int| 0 <= u < sv.take(j).len() && sv.take(j)[u] == sv[i];
                assert(sv[u] == sv[i]);
            }
        }
    }
    Ok(plan)
}

proof fn lemma_concat_contains<A>(a: Seq<A>, b: Seq<A>, x: A)
    ensures
        (a + b).contains(x) <==> (a.contains(x) || b.contains(x)),
{
    if a.contains(x) {
        let k = choose|k: int| 0 <= k < a.len() && a[k] == x;
        assert((a + b)[k] == x);
    }
    if b.contains(x) {
        let k = choose|k: int| 0 <= k < b.len() && b[k] == x;
        assert((a + b)[a.len() + k] == x);
    }
    if (a + b).contains(x) {
        let k = choose|k: int| 0 <= k < (a + b).len() && (a + b)[k] == x;
        if k < a.len() {
            assert(a[k] == x);
        } else {
            assert(b[k - a.len()] == x);
        }
    }
}

proof fn lemma_nothing_contained<A>(a: Seq<A>)
    requires
        forall|x: A| !a.contains(x),
    ensures
        a.len() == 0,
{
    if a.len() > 0 {
        assert(a.contains(a[0]));
    }
}

proof fn lemma_after_add_contains(s: Seq<Seq<char>>, new: Seq<Seq<char>>, x: Seq<char>)
    ensures
        crate::registry::deps_after_add(s, new).contains(x) <==> (s.contains(x) || new.contains(x)),
    decreases new.len(),
{
    if new.len() > 0 {
        lemma_after_add_contains(s, new.drop_last(), x);
        let d = crate::registry::deps_after_add(s, new.drop_last());
        let l = new.last();
        if !d.contains(l) {
            let dp = d.push(l);
            if dp.contains(x) {
                let k = choose|k: int| 0 <= k < dp.len() && dp[k] == x;
                if k < d.len() {
                    assert(d[k] == x);
                }
            }
            if d.contains(x) {
                let k = choose|k: int| 0 <= k < d.len() && d[k] == x;
                assert(dp[k] == x);
            }
            assert(dp[d.len() as int] == l);
        }
        assert(new[new.len() - 1] == l);
        if new.drop_last().contains(x) {
            let k = choose|k: int| 0 <= k < new.drop_last().len() && new.drop_last()[k] == x;
            assert(new[k] == x);
        }
        if new.contains(x) && x != new.last() {
            let k = choose|k: int| 0 <= k < new.len() && new[k] == x;
            assert(new.drop_last()[k] == x);
        }
    }
}

/// The packages `package apply` covers: every enabled package that is not
/// installed with all it depends on (but no disabled package), and every
/// enabled package that is installed.
pub open spec fn apply_covers(config: Config, installed: Seq<Seq<char>>, x: Seq<char>) -> bool {
    let keys = crate::strmap::keys_of(config.packages@);
    ||| (reaches(config, crate::plan::keep(keys, crate::apply::to_install_pred(config, installed)), x) && !is_disabled(config, x))
    ||| crate::plan::keep(keys, crate::apply::to_update_pred(config, installed)).contains(x)
}

/// The plan of `package apply`: the packages it covers, dependencies first,
/// each installed if it is not yet and updated if it is, and every disabled
/// package listed as skipped; those waiting on a dependency cycle are set
/// aside, and a package pulled in by another one of the set carries the note
/// `required by <it>`. Fails on the first covered package that is not configured.
pub fn apply_plan(
    config: &Config,
    installed: &[String],
    unmodified: &[(String, Action)],
    is_windows: bool,
) -> (r: Result<ActionPlan, Failure>)
    ensures
        r is Ok <==> (forall|x: Seq<char>| #[trigger] apply_covers(*config, strs(installed@), x) ==> has_key(config.packages@, x)),
        r matches Err(e) ==> e is Other,
        r matches Ok(p) ==> {
            let iv = strs(installed@);
            let vf = verdict_fn(*config, iv, jobs_view(unmodified@), is_windows);
            let runs = |x: Seq<char>| apply_covers(*config, iv, x) && !strs(p.circular_dependency@).contains(x);
            &&& forall|x: Seq<char>, a: Action| #[trigger] jobs_view(p.jobs@).contains((x, a))
                <==> (runs(x) && a == crate::apply::apply_action(iv, x) && vf((x, a)) is Act)
            &&& forall|x: Seq<char>| #[trigger] strs(p.disabled@).contains(x) <==> is_disabled(*config, x)
            &&& forall|x: Seq<char>, d: Seq<char>| #[trigger] pairs_view(p.dependency_disabled@).contains((x, d))
                <==> (runs(x) && !iv.contains(x) && vf((x, Action::Install)) == Verdict::DependencyDisabled(d))
            &&& forall|x: Seq<char>, d: Seq<char>| #[trigger] pairs_view(p.script_unmodified@).contains((x, d))
                <==> (runs(x) && vf((x, crate::apply::apply_action(iv, x))) == Verdict::ScriptUnmodified(d))
            &&& p.already_installed@.len() == 0
            &&& p.not_installed@.len() == 0
            &&& forall|x: Seq<char>| #[trigger] strs(p.circular_dependency@).contains(x)
                <==> (apply_covers(*config, iv, x) && waits_on_cycle(*config, |y: Seq<char>| apply_covers(*config, iv, y), x))
            &&& deps_first(*config, jobs_view(p.jobs@))
            &&& forall|x: Seq<char>| #[trigger] has_key(p.notes@, x)
                <==> (runs(x) && exists|q: Seq<char>| runs(q) && q != x && #[trigger] depends(*config, q, x))
            &&& forall|x: Seq<char>| #[trigger] has_key(p.notes@, x) ==> exists|q: Seq<char>| {
                &&& runs(q) && q != x && #[trigger] depends(*config, q, x)
                &&& lookup(p.notes@, x)->0@ == required_by_note(q)
                &&& forall|q2: Seq<char>| runs(q2) && q2 != x && #[trigger] depends(*config, q2, x)
                    ==> !crate::text::lex_lt(q2, q)
            }
            &&& forall|n: Seq<char>| #[trigger] crate::plan::pkg_enabled(*config, n) ==> apply_covers(*config, iv, n)
            &&& forall|n: Seq<char>, a: Action| is_disabled(*config, n) ==> !#[trigger] jobs_view(p.jobs@).contains((n, a))
            &&& forall|x: Seq<char>, a: Action| #[trigger] jobs_view(unmodified@).contains((x, a))
                ==> !jobs_view(p.jobs@).contains((x, a))
        },
{
    let ghost iv0 = strs(installed@);
    let (to_install, to_update, disabled) = crate::apply::classify_for_apply(config, installed);
    let (expanded, _) = crate::apply::run_action(config, &to_install, Action::Install);
    let kept = crate::apply::drop_disabled(config, &expanded);
    let merged = crate::apply::merge_packages(&kept, &to_update);
    let ghost mv = strs(merged@);
    proof {
        assert forall|x: Seq<char>| #[trigger] mv.contains(x) <==> apply_covers(*config, iv0, x) by {
            lemma_after_add_contains(strs(kept@), strs(to_update@), x);
            crate::state::lemma_keep_subset(strs(expanded@), crate::apply::not_disabled_pred(*config), x);
        }
    }
    let order = crate::topo::topological_sort(config, &merged);
    let ghost sv = strs(order.sorted@);
    let notes = crate::apply::intra_set_notes(config, &order.sorted);
    let jobs_all = crate::apply::classify_actions(&order.sorted, installed);
    let ghost av = jobs_view(jobs_all@);
    let dis_items = with_action(&disabled, Action::Install);
    let ghost dv = jobs_view(dis_items@);
    let ghost dsv = strs(disabled@);
    let mut plan = ActionPlan {
        jobs: Vec::new(),
        notes,
        disabled: Vec::new(),
        dependency_disabled: Vec::new(),
        already_installed: Vec::new(),
        not_installed: Vec::new(),
        circular_dependency: order.cycle,
        script_unmodified: Vec::new(),
    };
    let ghost p0 = plan;
    proof {
        assert forall|k: int| 0 <= k < av.len() implies #[trigger] av[k] == (sv[k], crate::apply::apply_action(iv0, sv[k])) by {
            assert(av[k] == (jobs_all@[k].0@, jobs_all@[k].1));
        }
        assert forall|x: Seq<char>| #[trigger] sv.contains(x) <==> (apply_covers(*config, iv0, x)
            && !strs(order.cycle@).contains(x)) by {
            crate::state::lemma_keep_subset(mv, |y: Seq<char>| !sv.contains(y), x);
            if sv.contains(x) {
                let k = choose|k: int| 0 <= k < sv.len() && sv[k] == x;
                assert(mv.contains(sv[k]));
            }
        }
    }
    match classify_into(&mut plan, config, &jobs_all, installed, unmodified, is_windows) {
        Err(e) => {
            proof {
                let i = choose|i: int| 0 <= i < jobs_all@.len() && !has_key(config.packages@, #[trigger] jobs_all@[i].0@);
                assert(av[i].0 == sv[i]);
                assert(sv.contains(sv[i]));
            }
            return Err(e);
        },
        Ok(()) => {},
    }
    let ghost p1 = plan;
    proof {
        assert(dv.len() == dsv.len());
        assert forall|i: int| 0 <= i < dis_items@.len() implies has_key(config.packages@, #[trigger] dis_items@[i].0@) by {
            assert(dv[i] == (dis_items@[i].0@, dis_items@[i].1));
            assert(dv[i] == (dsv[i], Action::Install));
            assert(dsv.contains(dsv[i]));
            crate::state::lemma_keep_subset(crate::strmap::keys_of(config.packages@), crate::apply::disabled_pred(*config), dsv[i]);
            let ks = crate::strmap::keys_of(config.packages@);
            let k = choose|k: int| 0 <= k < ks.len() && ks[k] == dsv[i];
            assert(config.packages@[k].0 == dsv[i]);
        }
    }
    match classify_into(&mut plan, config, &dis_items, installed, unmodified, is_windows) {
        Err(e) => {
            return Err(e);
        },
        Ok(()) => {},
    }
    proof {
        let vf = verdict_fn(*config, iv0, jobs_view(unmodified@), is_windows);
        let cyc = strs(plan.circular_dependency@);
        assert(cyc == strs(order.cycle@));
        assert(av.len() == sv.len());
        // Every covered package is configured.
        assert forall|x: Seq<char>| #[trigger] apply_covers(*config, iv0, x) implies has_key(config.packages@, x) by {
            if sv.contains(x) {
                let k = choose|k: int| 0 <= k < sv.len() && sv[k] == x;
                assert(av[k].0 == x);
                assert(has_key(config.packages@, jobs_all@[k].0@));
            } else {
                assert(mv.contains(x));
                crate::state::lemma_keep_subset(mv, |y: Seq<char>| !sv.contains(y), x);
                assert(strs(order.cycle@).contains(x));
                let d = choose|d: Seq<char>| #[trigger] depends(*config, x, d) && strs(order.cycle@).contains(d);
                assert(dep_names(*config, x).contains(d));
            }
        }
        // What the disabled items and the covered items can be classified as.
        assert forall|x: Seq<char>| #[trigger] dsv.contains(x) <==> is_disabled(*config, x) by {
            let ks = crate::strmap::keys_of(config.packages@);
            crate::state::lemma_keep_subset(ks, crate::apply::disabled_pred(*config), x);
            if ks.contains(x) {
                let k = choose|k: int| 0 <= k < ks.len() && ks[k] == x;
                assert(config.packages@[k].0 == x);
            }
            if is_disabled(*config, x) {
                let k = crate::strmap::key_index(config.packages@, x);
                assert(ks[k] == x);
            }
        }
        assert forall|k: int| 0 <= k < dv.len() implies #[trigger] vf(dv[k]) is Disabled by {
            assert(dv[k] == (dsv[k], Action::Install));
            assert(dsv.contains(dsv[k]));
        }
        assert forall|k: int| 0 <= k < av.len() implies !(#[trigger] vf(av[k]) is Disabled)
            && !(vf(av[k]) is AlreadyInstalled) && !(vf(av[k]) is NotInstalled)
            && (vf(av[k]) is DependencyDisabled ==> av[k].1 == Action::Install) by {
            assert(sv.contains(sv[k]));
            let x = sv[k];
            assert(apply_covers(*config, iv0, x));
            let ks = crate::strmap::keys_of(config.packages@);
            crate::state::lemma_keep_subset(ks, crate::apply::to_update_pred(*config, iv0), x);
        }
        // Jobs.
        assert forall|x: Seq<char>, a: Action| #[trigger] jobs_view(plan.jobs@).contains((x, a))
            <==> (apply_covers(*config, iv0, x) && !cyc.contains(x) && a == crate::apply::apply_action(iv0, x) && vf((x, a)) is Act) by {
            lemma_concat_contains(picked(av, pick_act(vf)), picked(dv, pick_act(vf)), (x, a));
            assert(jobs_view(plan.jobs@) =~= picked(av, pick_act(vf)) + picked(dv, pick_act(vf)));
            lemma_picked_contains(av, pick_act(vf), (x, a));
            lemma_picked_contains(dv, pick_act(vf), (x, a));
            if picked(dv, pick_act(vf)).contains((x, a)) {
                let i = choose|i: int| 0 <= i < dv.len() && #[trigger] pick_act(vf)(dv[i]) == Some((x, a));
                assert(vf(dv[i]) is Disabled);
            }
            if picked(av, pick_act(vf)).contains((x, a)) {
                let i = choose|i: int| 0 <= i < av.len() && #[trigger] pick_act(vf)(av[i]) == Some((x, a));
                assert(sv.contains(sv[i]));
            }
            if apply_covers(*config, iv0, x) && !cyc.contains(x) && a == crate::apply::apply_action(iv0, x) && vf((x, a)) is Act {
                assert(sv.contains(x));
                let k = choose|k: int| 0 <= k < sv.len() && sv[k] == x;
                assert(av[k] == (sv[k], crate::apply::apply_action(iv0, sv[k])));
                assert(pick_act(vf)(av[k]) == Some((x, a)));
            }
        }
        // Disabled.
        assert forall|x: Seq<char>| #[trigger] strs(plan.disabled@).contains(x) <==> is_disabled(*config, x) by {
            lemma_concat_contains(picked(av, pick_disabled(vf)), picked(dv, pick_disabled(vf)), x);
            assert(strs(plan.disabled@) =~= picked(av, pick_disabled(vf)) + picked(dv, pick_disabled(vf)));
            lemma_picked_contains(av, pick_disabled(vf), x);
            lemma_picked_contains(dv, pick_disabled(vf), x);
            if picked(av, pick_disabled(vf)).contains(x) {
                let i = choose|i: int| 0 <= i < av.len() && #[trigger] pick_disabled(vf)(av[i]) == Some(x);
            }
            if picked(dv, pick_disabled(vf)).contains(x) {
                let i = choose|i: int| 0 <= i < dv.len() && #[trigger] pick_disabled(vf)(dv[i]) == Some(x);
                assert(dv[i] == (dsv[i], Action::Install));
                assert(dsv.contains(dsv[i]));
            }
            if is_disabled(*config, x) {
                assert(dsv.contains(x));
                assert(dv.len() == dsv.len());
                let k = choose|k: int| 0 <= k < dsv.len() && dsv[k] == x;
                assert(dv[k] == (dsv[k], Action::Install));
                assert(vf(dv[k]) is Disabled);
                assert(pick_disabled(vf)(dv[k]) == Some(x));
            }
        }
        // Dependency disabled.
        assert forall|x: Seq<char>, d: Seq<char>| #[trigger] pairs_view(plan.dependency_disabled@).contains((x, d))
            <==> (apply_covers(*config, iv0, x) && !cyc.contains(x) && !iv0.contains(x)
                && vf((x, Action::Install)) == Verdict::DependencyDisabled(d)) by {
            lemma_concat_contains(picked(av, pick_dep_disabled(vf)), picked(dv, pick_dep_disabled(vf)), (x, d));
            assert(pairs_view(plan.dependency_disabled@) =~= picked(av, pick_dep_disabled(vf)) + picked(dv, pick_dep_disabled(vf)));
            lemma_picked_contains(av, pick_dep_disabled(vf), (x, d));
            lemma_picked_contains(dv, pick_dep_disabled(vf), (x, d));
            if picked(dv, pick_dep_disabled(vf)).contains((x, d)) {
                let i = choose|i: int| 0 <= i < dv.len() && #[trigger] pick_dep_disabled(vf)(dv[i]) == Some((x, d));
                assert(vf(dv[i]) is Disabled);
            }
            if picked(av, pick_dep_disabled(vf)).contains((x, d)) {
                let i = choose|i: int| 0 <= i < av.len() && #[trigger] pick_dep_disabled(vf)(av[i]) == Some((x, d));
                assert(sv.contains(sv[i]));
                assert(vf(av[i]) is DependencyDisabled);
            }
            if apply_covers(*config, iv0, x) && !cyc.contains(x) && !iv0.contains(x)
                && vf((x, Action::Install)) == Verdict::DependencyDisabled(d) {
                assert(sv.contains(x));
                let k = choose|k: int| 0 <= k < sv.len() && sv[k] == x;
                assert(av[k] == (sv[k], crate::apply::apply_action(iv0, sv[k])));
                assert(pick_dep_disabled(vf)(av[k]) == Some((x, d)));
            }
        }
        // Script unmodified.
        assert forall|x: Seq<char>, d: Seq<char>| #[trigger] pairs_view(plan.script_unmodified@).contains((x, d))
            <==> (apply_covers(*config, iv0, x) && !cyc.contains(x)
                && vf((x, crate::apply::apply_action(iv0, x))) == Verdict::ScriptUnmodified(d)) by {
            lemma_concat_contains(picked(av, pick_unmodified(vf)), picked(dv, pick_unmodified(vf)), (x, d));
            assert(pairs_view(plan.script_unmodified@) =~= picked(av, pick_unmodified(vf)) + picked(dv, pick_unmodified(vf)));
            lemma_picked_contains(av, pick_unmodified(vf), (x, d));
            lemma_picked_contains(dv, pick_unmodified(vf), (x, d));
            if picked(dv, pick_unmodified(vf)).contains((x, d)) {
                let i = choose|i: int| 0 <= i < dv.len() && #[trigger] pick_unmodified(vf)(dv[i]) == Some((x, d));
                assert(vf(dv[i]) is Disabled);
            }
            if picked(av, pick_unmodified(vf)).contains((x, d)) {
                let i = choose|i: int| 0 <= i < av.len() && #[trigger] pick_unmodified(vf)(av[i]) == Some((x, d));
                assert(sv.contains(sv[i]));
            }
            if apply_covers(*config, iv0, x) && !cyc.contains(x)
                && vf((x, crate::apply::apply_action(iv0, x))) == Verdict::ScriptUnmodified(d) {
                assert(sv.contains(x));
                let k = choose|k: int| 0 <= k < sv.len() && sv[k] == x;
                assert(av[k] == (sv[k], crate::apply::apply_action(iv0, sv[k])));
                assert(pick_unmodified(vf)(av[k]) == Some((x, d)));
            }
        }
        // Nothing is already installed or not installed.
        assert forall|x: Seq<char>| !(#[trigger] strs(plan.already_installed@).contains(x)) by {
            lemma_concat_contains(picked(av, pick_already(vf)), picked(dv, pick_already(vf)), x);
            assert(strs(plan.already_installed@) =~= picked(av, pick_already(vf)) + picked(dv, pick_already(vf)));
            lemma_picked_contains(av, pick_already(vf), x);
            lemma_picked_contains(dv, pick_already(vf), x);
            if picked(dv, pick_already(vf)).contains(x) {
                let i = choose|i: int| 0 <= i < dv.len() && #[trigger] pick_already(vf)(dv[i]) == Some(x);
                assert(vf(dv[i]) is Disabled);
            }
            if picked(av, pick_already(vf)).contains(x) {
                let i = choose|i: int| 0 <= i < av.len() && #[trigger] pick_already(vf)(av[i]) == Some(x);
                assert(vf(av[i]) is AlreadyInstalled);
            }
        }
        lemma_nothing_contained(strs(plan.already_installed@));
        assert forall|x: Seq<char>| !(#[trigger] strs(plan.not_installed@).contains(x)) by {
            lemma_concat_contains(picked(av, pick_not_installed(vf)), picked(dv, pick_not_installed(vf)), x);
            assert(strs(plan.not_installed@) =~= picked(av, pick_not_installed(vf)) + picked(dv, pick_not_installed(vf)));
            lemma_picked_contains(av, pick_not_installed(vf), x);
            lemma_picked_contains(dv, pick_not_installed(vf), x);
            if picked(dv, pick_not_installed(vf)).contains(x) {
                let i = choose|i: int| 0 <= i < dv.len() && #[trigger] pick_not_installed(vf)(dv[i]) == Some(x);
                assert(vf(dv[i]) is Disabled);
            }
            if picked(av, pick_not_installed(vf)).contains(x) {
                let i = choose|i: int| 0 <= i < av.len() && #[trigger] pick_not_installed(vf)(av[i]) == Some(x);
                assert(vf(av[i]) is NotInstalled);
            }
        }
        lemma_nothing_contained(strs(plan.not_installed@));
        // Set aside exactly what waits on a dependency cycle.
        assert((|y: Seq<char>| mv.contains(y)) =~= (|y: Seq<char>| apply_covers(*config, iv0, y)));
        assert forall|x: Seq<char>| #[trigger] cyc.contains(x) implies apply_covers(*config, iv0, x) by {
            crate::state::lemma_keep_subset(mv, |y: Seq<char>| !sv.contains(y), x);
        }
        // Order.
        assert forall|x: (Seq<char>, Action)| !(#[trigger] picked(dv, pick_act(vf)).contains(x)) by {
            lemma_picked_contains(dv, pick_act(vf), x);
            if picked(dv, pick_act(vf)).contains(x) {
                let i = choose|i: int| 0 <= i < dv.len() && #[trigger] pick_act(vf)(dv[i]) == Some(x);
                assert(vf(dv[i]) is Disabled);
            }
        }
        lemma_nothing_contained(picked(dv, pick_act(vf)));
        assert(jobs_view(plan.jobs@) =~= picked(av, pick_act(vf)));
        assert forall|i: int, j: int| 0 <= i < av.len() && 0 <= j < av.len() && av[i].0 != av[j].0
            && #[trigger] depends(*config, av[j].0, av[i].0) implies i < j by {
            assert(sv.contains(sv[i]));
            assert(mv.contains(sv[i]));
            assert(sv.take(j).contains(sv[i]));
            let u = choose|u: int| 0 <= u < sv.take(j).len() && sv.take(j)[u] == sv[i];
            assert(sv[u] == sv[i]);
        }
        lemma_order_kept(*config, av, vf);
        // Notes: the alphabetically first other package of the run set that depends on it.
        assert forall|x: Seq<char>| #[trigger] has_key(plan.notes@, x)
            <==> ((apply_covers(*config, iv0, x) && !cyc.contains(x)) && exists|q: Seq<char>|
                (apply_covers(*config, iv0, q) && !cyc.contains(q)) && q != x && #[trigger] depends(*config, q, x)) by {
            if has_key(plan.notes@, x) {
                let q = choose|q: Seq<char>| crate::apply::is_requester(*config, sv, x, q) && lookup(plan.notes@, x)->0@ == required_by_note(q)
                    && forall|q2: Seq<char>| #[trigger] crate::apply::is_requester(*config, sv, x, q2) ==> !crate::text::lex_lt(q2, q);
                assert(sv.contains(q));
                assert(sv.contains(x));
            }
            if (apply_covers(*config, iv0, x) && !cyc.contains(x)) && exists|q: Seq<char>|
                (apply_covers(*config, iv0, q) && !cyc.contains(q)) && q != x && #[trigger] depends(*config, q, x) {
                let q = choose|q: Seq<char>| (apply_covers(*config, iv0, q) && !cyc.contains(q)) && q != x && #[trigger] depends(*config, q, x);
                assert(sv.contains(q));
                assert(sv.contains(x));
                assert(crate::apply::is_requester(*config, sv, x, q));
            }
        }
        assert forall|x: Seq<char>| #[trigger] has_key(plan.notes@, x) implies exists|q: Seq<char>| {
            &&& (apply_covers(*config, iv0, q) && !cyc.contains(q)) && q != x && #[trigger] depends(*config, q, x)
            &&& lookup(plan.notes@, x)->0@ == required_by_note(q)
            &&& forall|q2: Seq<char>| (apply_covers(*config, iv0, q2) && !cyc.contains(q2)) && q2 != x && #[trigger] depends(*config, q2, x)
                ==> !crate::text::lex_lt(q2, q)
        } by {
            let q = choose|q: Seq<char>| crate::apply::is_requester(*config, sv, x, q) && lookup(plan.notes@, x)->0@ == required_by_note(q)
                && forall|q2: Seq<char>| #[trigger] crate::apply::is_requester(*config, sv, x, q2) ==> !crate::text::lex_lt(q2, q);
            assert(sv.contains(q));
            assert forall|q2: Seq<char>| (apply_covers(*config, iv0, q2) && !cyc.contains(q2)) && q2 != x && #[trigger] depends(*config, q2, x)
                implies !crate::text::lex_lt(q2, q) by {
                assert(sv.contains(q2));
                assert(crate::apply::is_requester(*config, sv, x, q2));
            }
        }
        // Every enabled package is covered; a disabled one never runs.
        assert forall|n: Seq<char>| #[trigger] crate::plan::pkg_enabled(*config, n) implies apply_covers(*config, iv0, n) by {
            let ks = crate::strmap::keys_of(config.packages@);
            let k = crate::strmap::key_index(config.packages@, n);
            assert(ks[k] == n);
            if iv0.contains(n) {
                crate::state::lemma_keep_subset(ks, crate::apply::to_update_pred(*config, iv0), n);
            } else {
                crate::state::lemma_keep_subset(ks, crate::apply::to_install_pred(*config, iv0), n);
                let from = crate::plan::keep(ks, crate::apply::to_install_pred(*config, iv0));
                let path = seq![n];
                assert(crate::deps::is_dep_path(*config, path));
                assert(from.contains(path[0]));
                assert(path.last() == n);
            }
        }
        assert forall|n: Seq<char>, a: Action| is_disabled(*config, n) implies !#[trigger] jobs_view(plan.jobs@).contains((n, a)) by {
            if jobs_view(plan.jobs@).contains((n, a)) {
                assert(apply_covers(*config, iv0, n));
                let ks = crate::strmap::keys_of(config.packages@);
                crate::state::lemma_keep_subset(ks, crate::apply::to_update_pred(*config, iv0), n);
            }
        }
    }
    Ok(plan)
}

/// The marker that skeleton scripts carry until they are edited.
pub open spec fn skeleton_marker() -> Seq<char> {
    "Generated by homeos"@
}

/// `s` holds `pat` somewhere.
pub open spec fn holds_text(s: Seq<char>, pat: Seq<char>) -> bool {
    exists|i: int| 0 <= i && i + pat.len() <= s.len() && #[trigger] s.subrange(i, i + pat.len()) == pat
}

/// Whether a script's text still carries the skeleton marker, i.e. was
/// never edited (such a script is skipped rather than run).
pub fn script_is_unmodified(content: &str) -> (b: bool)
    ensures
        b == holds_text(content@, skeleton_marker()),
{
    let cs = crate::text::chars_of(content);
    let ms = crate::text::chars_of("Generated by homeos");
    let ghost m = skeleton_marker();
    assert(ms@ == m);
    if ms.len() > cs.len() {
        assert forall|k: int| 0 <= k && k + m.len() <= content@.len() implies
            #[trigger] content@.subrange(k, k + m.len()) != m by {}
        return false;
    }
    let n = cs.len();
    let last = n - ms.len();
    let mut i: usize = 0;
    loop
        invariant_except_break
            i <= last,
            forall|k: int| 0 <= k < i ==> #[trigger] cs@.subrange(k, k + m.len()) != m,
        invariant
            cs@ == content@,
            ms@ == m,
            m == skeleton_marker(),
            last == cs@.len() - ms@.len(),
            ms@.len() <= cs@.len(),
            n == cs@.len(),
        ensures
            forall|k: int| 0 <= k <= last ==> #[trigger] cs@.subrange(k, k + m.len()) != m,
        decreases last - i,
    {
        let mut j: usize = 0;
        let mut same = true;
        while j < ms.len()
            invariant
                cs@ == content@,
                ms@ == m,
                i <= last,
                last == cs@.len() - ms@.len(),
                ms@.len() <= cs@.len(),
                n == cs@.len(),
                j <= ms@.len(),
                same == (forall|t: int| 0 <= t < j ==> cs@[i + t] == m[t]),
            decreases ms.len() - j,
        {
            if cs[i + j] != ms[j] {
                same = false;
            }
            j = j + 1;
        }
        if same {
            assert(cs@.subrange(i as int, i + m.len()) =~= m);
            assert(content@.subrange(i as int, i + m.len()) == m);
            assert(m == skeleton_marker());
            assert(i + skeleton_marker().len() <= content@.len());
            assert(content@.subrange(i as int, i + skeleton_marker().len()) == skeleton_marker());
            return true;
        }
        proof {
            if cs@.subrange(i as int, i + m.len()) == m {
                assert forall|t: int| 0 <= t < m.len() implies cs@[i + t] == m[t] by {
                    assert(cs@.subrange(i as int, i + m.len())[t] == cs@[i + t]);
                }
            }
        }
        if i == last {
            break;
        }
        i = i + 1;
    }
    assert forall|k: int| 0 <= k && k + m.len() <= content@.len() implies
        #[trigger] content@.subrange(k, k + m.len()) != m by {
        assert(k <= last);
    }
    false
}

/// How running one job's script went.
pub enum ScriptEvent {
    /// The script file does not exist (its path).
    Missing(String),
    Succeeded,
    /// The script failed (the error's message).
    Failed(String),
}

/// What a run has seen so far.
pub struct RunState {
    pub had_errors: bool,
}

/// The lines a run writes after a job's script was looked for and run.
pub open spec fn event_lines(e: ScriptEvent) -> Seq<Seq<char>> {
    match e {
        ScriptEvent::Missing(p) => seq!["Error: Script not found: "@ + p@],
        ScriptEvent::Succeeded => seq!["done"@],
        ScriptEvent::Failed(m) => seq!["Error: "@ + m@, "FAILED"@],
    }
}

/// One step of running a plan's jobs: the lines to write for what happened to
/// the job's script, and whether the run has now seen an error (a missing or
/// failed script). A job that succeeded is then recorded in the state.
pub fn run_step(s: RunState, event: &ScriptEvent) -> (r: (RunState, Vec<String>))
    ensures
        r.0.had_errors == (s.had_errors || !(*event is Succeeded)),
        strs(r.1@) == event_lines(*event),
{
    match event {
        ScriptEvent::Missing(p) => {
            let l = crate::registry::message2("Error: Script not found: ", p.as_str());
            let v = vec![l];
            assert(strs(v@) =~= event_lines(*event));
            (RunState { had_errors: true }, v)
        },
        ScriptEvent::Succeeded => {
            let v = vec![owned("done")];
            assert(strs(v@) =~= event_lines(*event));
            (RunState { had_errors: s.had_errors }, v)
        },
        ScriptEvent::Failed(m) => {
            let v = vec![crate::registry::message2("Error: ", m.as_str()), owned("FAILED")];
            assert(strs(v@) =~= event_lines(*event));
            (RunState { had_errors: true }, v)
        },
    }
}

/// The closing line of a run: `Some packages failed` when a script was missing or failed.
pub fn run_finish(s: &RunState) -> (r: Option<String>)
    ensures
        r is Some <==> s.had_errors,
        r matches Some(t) ==> t@ == "Some packages failed"@,
{
    if s.had_errors {
        Some(owned("Some packages failed"))
    } else {
        None
    }
}

/// The installed list after one job of a run: a successful install adds the
/// package (once), a successful uninstall removes it, anything else leaves it.
pub open spec fn installed_after(s: Seq<Seq<char>>, step: (Seq<char>, Action, bool)) -> Seq<Seq<char>> {
    if !step.2 {
        s
    } else {
        match step.1 {
            Action::Install => crate::state::after_install(s, step.0),
            Action::Uninstall => crate::state::after_uninstall(s, step.0),
            Action::Update => s,
        }
    }
}

/// The installed list after a whole run, given each job's package, action
/// and whether its script succeeded.
pub open spec fn installed_after_run(s0: Seq<Seq<char>>, steps: Seq<(Seq<char>, Action, bool)>) -> Seq<Seq<char>>
    decreases steps.len(),
{
    if steps.len() == 0 {
        s0
    } else {
        installed_after(installed_after_run(s0, steps.drop_last()), steps.last())
    }
}

/// Whether a run saw an error: some job's script was missing or failed.
pub open spec fn errors_after_run(steps: Seq<(Seq<char>, Action, bool)>) -> bool
    decreases steps.len(),
{
    if steps.len() == 0 {
        false
    } else {
        errors_after_run(steps.drop_last()) || !steps.last().2
    }
}

/// Records the effect of one job once its script was looked for and run:
/// only a successful script changes anything. A successful install adds the
/// package to the installed list; a successful uninstall removes it and, if
/// it was enabled, disables it in the configuration (every other entry and
/// every other field stay as they were); an update changes nothing. Returns
/// whether the configuration changed (and must be saved).
pub fn record_step(state: &mut crate::state::State, config: &mut Config, name: &str, action: Action, event: &ScriptEvent)
    -> (changed: bool)
    ensures
        strs(final(state).installed@) == installed_after(strs(old(state).installed@), (name@, action, *event is Succeeded)),
        !(*event is Succeeded && action == Action::Uninstall) ==> !changed && final(config).packages@ == old(config).packages@,
        *event is Succeeded && action == Action::Uninstall ==> {
            &&& changed == (lookup(old(config).packages@, name@) matches Some(p) && p.enabled)
            &&& forall|x: Seq<char>| #[trigger] has_key(final(config).packages@, x) == has_key(old(config).packages@, x)
            &&& forall|x: Seq<char>| x != name@ ==> #[trigger] lookup(final(config).packages@, x) == lookup(old(config).packages@, x)
            &&& changed ==> lookup(final(config).packages@, name@)
                == Some(crate::registry::with_enabled(lookup(old(config).packages@, name@)->0, false))
            &&& !changed ==> final(config).packages@ == old(config).packages@
        },
        final(config).plugins@ == old(config).plugins@,
{
    match event {
        ScriptEvent::Succeeded => crate::state::update_state_per_package(state, config, action, name),
        _ => false,
    }
}

/// A run ends reporting failure exactly when some job's script was missing or failed.
pub proof fn law_run_errors(steps: Seq<(Seq<char>, Action, bool)>)
    ensures
        errors_after_run(steps) <==> exists|i: int| 0 <= i < steps.len() && !(#[trigger] steps[i]).2,
    decreases steps.len(),
{
    if steps.len() > 0 {
        law_run_errors(steps.drop_last());
        if exists|i: int| 0 <= i < steps.drop_last().len() && !(#[trigger] steps.drop_last()[i]).2 {
            let i = choose|i: int| 0 <= i < steps.drop_last().len() && !(#[trigger] steps.drop_last()[i]).2;
            assert(steps[i] == steps.drop_last()[i]);
        }
        if exists|i: int| 0 <= i < steps.len() && !(#[trigger] steps[i]).2 {
            let i = choose|i: int| 0 <= i < steps.len() && !(#[trigger] steps[i]).2;
            if i < steps.len() - 1 {
                assert(steps.drop_last()[i] == steps[i]);
            }
        }
    }
}

/// A run of installs keeps the installed list as it was and appends, once
/// each, the packages whose script succeeded, in the order they ran; a
/// failed or missing script leaves the list as it was and the run goes on.
pub proof fn law_install_run_records_successes(s0: Seq<Seq<char>>, steps: Seq<(Seq<char>, Action, bool)>, x: Seq<char>)
    requires
        forall|i: int| 0 <= i < steps.len() ==> (#[trigger] steps[i]).1 == Action::Install,
    ensures
        installed_after_run(s0, steps).contains(x)
            <==> (s0.contains(x) || exists|i: int| 0 <= i < steps.len() && (#[trigger] steps[i]).0 == x && steps[i].2),
        installed_after_run(s0, steps).len() >= s0.len(),
        installed_after_run(s0, steps).take(s0.len() as int) == s0,
        s0.no_duplicates() ==> installed_after_run(s0, steps).no_duplicates(),
    decreases steps.len(),
{
    if steps.len() > 0 {
        let rest = steps.drop_last();
        assert forall|i: int| 0 <= i < rest.len() implies (#[trigger] rest[i]).1 == Action::Install by {
            assert(rest[i] == steps[i]);
        }
        law_install_run_records_successes(s0, rest, x);
        let before = installed_after_run(s0, rest);
        let last = steps.last();
        assert(last == steps[steps.len() - 1]);
        assert(installed_after_run(s0, steps) == installed_after(before, last));
        if last.2 {
            assert(installed_after(before, last) == crate::state::after_install(before, last.0));
        } else {
            assert(installed_after(before, last) == before);
        }
        if s0.no_duplicates() && last.2 {
            crate::state::law_install_keeps_unique(before, last.0);
        }
        if last.2 && !before.contains(last.0) {
            assert(before.push(last.0).take(s0.len() as int) =~= before.take(s0.len() as int));
            if x == last.0 {
                assert(before.push(last.0)[before.len() as int] == x);
            }
            let after = before.push(last.0);
            if before.contains(x) {
                let k = choose|k: int| 0 <= k < before.len() && before[k] == x;
                assert(after[k] == x);
            }
            if after.contains(x) && x != last.0 {
                let k = choose|k: int| 0 <= k < after.len() && after[k] == x;
                assert(before[k] == x);
            }
        }
        if exists|i: int| 0 <= i < steps.len() && (#[trigger] steps[i]).0 == x && steps[i].2 {
            let i = choose|i: int| 0 <= i < steps.len() && (#[trigger] steps[i]).0 == x && steps[i].2;
            if i < steps.len() - 1 {
                assert(rest[i] == steps[i]);
            } else if last.2 {
                crate::state::law_install_records(before, last.0);
            }
        }
        if exists|i: int| 0 <= i < rest.len() && (#[trigger] rest[i]).0 == x && rest[i].2 {
            let i = choose|i: int| 0 <= i < rest.len() && (#[trigger] rest[i]).0 == x && rest[i].2;
            assert(steps[i] == rest[i]);
        }
    }
}

/// A run of uninstalls removes exactly the packages whose script succeeded.
pub proof fn law_uninstall_run_removes_successes(s0: Seq<Seq<char>>, steps: Seq<(Seq<char>, Action, bool)>, x: Seq<char>)
    requires
        forall|i: int| 0 <= i < steps.len() ==> (#[trigger] steps[i]).1 == Action::Uninstall,
    ensures
        installed_after_run(s0, steps).contains(x)
            <==> (s0.contains(x) && !exists|i: int| 0 <= i < steps.len() && (#[trigger] steps[i]).0 == x && steps[i].2),
    decreases steps.len(),
{
    if steps.len() > 0 {
        let rest = steps.drop_last();
        assert forall|i: int| 0 <= i < rest.len() implies (#[trigger] rest[i]).1 == Action::Uninstall by {
            assert(rest[i] == steps[i]);
        }
        law_uninstall_run_removes_successes(s0, rest, x);
        let before = installed_after_run(s0, rest);
        let last = steps.last();
        assert(last == steps[steps.len() - 1]);
        if last.2 {
            crate::state::law_uninstall_removes(before, last.0, x);
        }
        if exists|i: int| 0 <= i < steps.len() && (#[trigger] steps[i]).0 == x && steps[i].2 {
            let i = choose|i: int| 0 <= i < steps.len() && (#[trigger] steps[i]).0 == x && steps[i].2;
            if i < steps.len() - 1 {
                assert(rest[i] == steps[i]);
            }
        }
        if exists|i: int| 0 <= i < rest.len() && (#[trigger] rest[i]).0 == x && rest[i].2 {
            let i = choose|i: int| 0 <= i < rest.len() && (#[trigger] rest[i]).0 == x && rest[i].2;
            assert(steps[i] == rest[i]);
        }
    }
}

/// A run of updates leaves the installed list as it was.
pub proof fn law_update_run_keeps_installed(s0: Seq<Seq<char>>, steps: Seq<(Seq<char>, Action, bool)>)
    requires
        forall|i: int| 0 <= i < steps.len() ==> (#[trigger] steps[i]).1 == Action::Update,
    ensures
        installed_after_run(s0, steps) == s0,
    decreases steps.len(),
{
    if steps.len() > 0 {
        let rest = steps.drop_last();
        assert forall|i: int| 0 <= i < rest.len() implies (#[trigger] rest[i]).1 == Action::Update by {
            assert(rest[i] == steps[i]);
        }
        law_update_run_keeps_installed(s0, rest);
        assert(steps.last() == steps[steps.len() - 1]);
    }
}

/// What a command does after showing its plan.
pub enum NextStep {
    /// Stop: nothing to do, or a dry run.
    Stop,
    /// Ask for confirmation, then run if confirmed.
    Ask,
    /// Run without asking (`--yes`).
    Run,
}

/// What `package install`, `update` and `uninstall` write once the plan is
/// built, and what they do next: with nothing to do, the plan (if it shows
/// anything) and a blank line, then `Nothing to do.`; in a dry run, the plan;
/// otherwise the plan and a blank line, then ask unless `--yes`.
pub fn action_intro(display: &str, is_empty: bool, dry_run: bool, yes: bool) -> (r: (String, NextStep))
    ensures
        is_empty ==> r.1 is Stop && r.0@ == (if display@.len() == 0 {
            Seq::empty()
        } else {
            display@ + "\n"@ + "\n"@
        }) + "Nothing to do.\n"@,
        !is_empty && dry_run ==> r.1 is Stop && r.0@ == display@ + "\n"@,
        !is_empty && !dry_run ==> r.0@ == display@ + "\n"@ + "\n"@ && (if yes { r.1 is Run } else { r.1 is Ask }),
{
    let mut out = String::new();
    if is_empty {
        if crate::text::chars_of(display).len() > 0 {
            push_str(&mut out, display);
            push_str(&mut out, "\n");
            push_str(&mut out, "\n");
        }
        push_str(&mut out, "Nothing to do.\n");
        return (out, NextStep::Stop);
    }
    push_str(&mut out, display);
    push_str(&mut out, "\n");
    if dry_run {
        return (out, NextStep::Stop);
    }
    push_str(&mut out, "\n");
    (out, if yes { NextStep::Run } else { NextStep::Ask })
}

/// What `package apply` writes once the plan is built, and what it does next:
/// the plan (if it shows anything); with nothing to do, a blank line and
/// `Nothing to do.` (only `Nothing to do.` when no package is enabled and the
/// plan shows nothing); in a dry run, nothing more; otherwise a blank line,
/// then ask unless `--yes`.
pub fn apply_intro(display: &str, is_empty: bool, dry_run: bool, yes: bool, any_enabled: bool) -> (r: (String, NextStep))
    ensures
        ({
            let shown = if display@.len() == 0 { Seq::<char>::empty() } else { display@ + "\n"@ };
            &&& is_empty && (any_enabled || display@.len() > 0) ==> r.1 is Stop && r.0@ == shown + "\n"@ + "Nothing to do.\n"@
            &&& is_empty && !any_enabled && display@.len() == 0 ==> r.1 is Stop && r.0@ == "Nothing to do.\n"@
            &&& !is_empty && dry_run ==> r.1 is Stop && r.0@ == shown
            &&& !is_empty && !dry_run ==> r.0@ == shown + "\n"@ && (if yes { r.1 is Run } else { r.1 is Ask })
        }),
{
    let mut out = String::new();
    let shows = crate::text::chars_of(display).len() > 0;
    if shows {
        push_str(&mut out, display);
        push_str(&mut out, "\n");
    }
    if is_empty {
        if any_enabled || shows {
            push_str(&mut out, "\n");
        }
        push_str(&mut out, "Nothing to do.\n");
        return (out, NextStep::Stop);
    }
    if dry_run {
        return (out, NextStep::Stop);
    }
    push_str(&mut out, "\n");
    (out, if yes { NextStep::Run } else { NextStep::Ask })
}

/// Whether some configured package is enabled.
pub fn any_enabled(config: &Config) -> (b: bool)
    ensures
        b == exists|n: Seq<char>| #[trigger] crate::plan::pkg_enabled(*config, n),
{
    let names = crate::config::names_of(&config.packages);
    let ghost ks = crate::strmap::keys_of(config.packages@);
    let mut i: usize = 0;
    while i < names.len()
        invariant
            strs(names@) == ks,
            ks == crate::strmap::keys_of(config.packages@),
            i <= names@.len(),
            forall|j: int| 0 <= j < i ==> !crate::plan::pkg_enabled(*config, #[trigger] ks[j]),
        decreases names.len() - i,
    {
        assert(ks[i as int] == names@[i as int]@);
        match config.packages.get(names[i].as_str()) {
            Some(p) => {
                if p.enabled {
                    assert(crate::plan::pkg_enabled(*config, names@[i as int]@));
                    return true;
                }
            },
            None => {},
        }
        i = i + 1;
    }
    assert forall|x: Seq<char>| !#[trigger] crate::plan::pkg_enabled(*config, x) by {
        if crate::plan::pkg_enabled(*config, x) {
            assert(has_key(config.packages@, x));
            let k = crate::strmap::key_index(config.packages@, x);
            assert(0 <= k < config.packages@.len() && config.packages@[k].0 == x);
            assert(ks.len() == names@.len());
            assert(ks[k] == x);
            assert(k < names@.len());
            assert(!crate::plan::pkg_enabled(*config, ks[k]));
        }
    }
    false
}

/// The line written when the user declines the confirmation: `Aborted.`.
pub fn answer_line(confirmed: bool) -> (r: Option<String>)
    ensures
        confirmed ==> r is None,
        !confirmed ==> (r matches Some(t) && t@ == "Aborted."@),
{
    if confirmed {
        None
    } else {
        Some(owned("Aborted."))
    }
}

} // verus!
