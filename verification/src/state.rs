//! The machine-local record of which packages are installed.
use vstd::prelude::*;
use crate::config::{Config, contains_str};
use crate::plan::keep;
use crate::strmap::{has_key, lookup};
use crate::text::{strs, str_eq};

verus! {

/// The installed packages of this machine, in the order they were installed.
pub struct State {
    pub installed: Vec<String>,
}

impl Default for State {
    fn default() -> (r: Self)
        ensures
            r.installed@.len() == 0,
    {
        State { installed: Vec::new() }
    }
}

/// The installed list after recording that `name` was installed.
pub open spec fn after_install(s: Seq<Seq<char>>, name: Seq<char>) -> Seq<Seq<char>> {
    if s.contains(name) {
        s
    } else {
        s.push(name)
    }
}

/// The predicate "is not `name`".
pub open spec fn differs_from(name: Seq<char>) -> spec_fn(Seq<char>) -> bool {
    |n: Seq<char>| n != name
}

/// The installed list after recording that `name` was uninstalled.
pub open spec fn after_uninstall(s: Seq<Seq<char>>, name: Seq<char>) -> Seq<Seq<char>> {
    keep(s, differs_from(name))
}

impl State {
    /// Records that `name` was installed: appended unless it is already listed.
    pub fn record_install(&mut self, name: &str)
        ensures
            strs(final(self).installed@) == after_install(strs(old(self).installed@), name@),
    {
        if !contains_str(&self.installed, name) {
            let mut n = String::new();
            crate::text::push_str(&mut n, name);
            let ghost before = strs(self.installed@);
            self.installed.push(n);
            assert(strs(self.installed@) =~= before.push(name@));
        }
    }

    /// Records that `name` was uninstalled: every entry equal to it is dropped,
    /// the others keep their order.
    pub fn record_uninstall(&mut self, name: &str)
        ensures
            strs(final(self).installed@) == after_uninstall(strs(old(self).installed@), name@),
    {
        let ghost s = strs(self.installed@);
        let ghost f = differs_from(name@);
        let mut kept: Vec<String> = Vec::new();
        let mut i: usize = 0;
        while i < self.installed.len()
            invariant
                s == strs(self.installed@),
                f == differs_from(name@),
                i <= self.installed@.len(),
                strs(kept@) == keep(s.take(i as int), f),
            decreases self.installed.len() - i,
        {
            proof {
                assert(s.take(i + 1).drop_last() =~= s.take(i as int));
                assert(s.take(i + 1).last() == self.installed@[i as int]@);
            }
            if !str_eq(self.installed[i].as_str(), name) {
                let ghost before = strs(kept@);
                kept.push(self.installed[i].clone());
                assert(strs(kept@) =~= before.push(self.installed@[i as int]@));
            }
            i = i + 1;
        }
        assert(s.take(s.len() as int) =~= s);
        self.installed = kept;
    }
}

/// `keep` only drops elements: whatever it keeps was in the input.
pub proof fn lemma_keep_subset(s: Seq<Seq<char>>, f: spec_fn(Seq<char>) -> bool, x: Seq<char>)
    ensures
        keep(s, f).contains(x) <==> (s.contains(x) && f(x)),
    decreases s.len(),
{
    if s.len() > 0 {
        lemma_keep_subset(s.drop_last(), f, x);
        let r = keep(s.drop_last(), f);
        if s.contains(x) && f(x) {
            let i = choose|i: int| 0 <= i < s.len() && s[i] == x;
            if i < s.len() - 1 {
                assert(s.drop_last()[i] == x);
            }
        }
        if keep(s, f).contains(x) {
            if f(s.last()) {
                let k = keep(s, f);
                let j = choose|j: int| 0 <= j < k.len() && k[j] == x;
                if j < r.len() {
                    assert(r[j] == x);
                }
            }
        }
        if s.drop_last().contains(x) {
            let j = choose|j: int| 0 <= j < s.drop_last().len() && s.drop_last()[j] == x;
            assert(s[j] == x);
        }
        if f(s.last()) {
            assert(keep(s, f).last() == s.last());
            assert(r.push(s.last()).drop_last() =~= r);
        }
    }
}

/// `keep` with a predicate that holds of every element returns the input.
pub proof fn lemma_keep_all(s: Seq<Seq<char>>, f: spec_fn(Seq<char>) -> bool)
    requires
        forall|i: int| 0 <= i < s.len() ==> f(#[trigger] s[i]),
    ensures
        keep(s, f) == s,
    decreases s.len(),
{
    if s.len() > 0 {
        assert forall|i: int| 0 <= i < s.drop_last().len() implies f(#[trigger] s.drop_last()[i]) by {
            assert(s.drop_last()[i] == s[i]);
        }
        lemma_keep_all(s.drop_last(), f);
        assert(f(s[s.len() - 1]));
        assert(s.drop_last().push(s.last()) =~= s);
    }
}

/// After recording an install, the package is listed.
pub proof fn law_install_records(s: Seq<Seq<char>>, name: Seq<char>)
    ensures
        after_install(s, name).contains(name),
{
    if !s.contains(name) {
        assert(s.push(name)[s.len() as int] == name);
    }
}

/// Recording the same install twice is the same as recording it once.
pub proof fn law_install_idempotent(s: Seq<Seq<char>>, name: Seq<char>)
    ensures
        after_install(after_install(s, name), name) == after_install(s, name),
{
    law_install_records(s, name);
}

/// Recording an install keeps a list free of duplicates.
pub proof fn law_install_keeps_unique(s: Seq<Seq<char>>, name: Seq<char>)
    requires
        s.no_duplicates(),
    ensures
        after_install(s, name).no_duplicates(),
{
    if !s.contains(name) {
        let t = s.push(name);
        assert forall|i: int, j: int| 0 <= i < t.len() && 0 <= j < t.len() && i != j implies t[i] != t[j] by {
            if i == s.len() {
                assert(s[j] == t[j]);
            } else if j == s.len() {
                assert(s[i] == t[i]);
            } else {
                assert(s[i] == t[i] && s[j] == t[j]);
            }
        }
    }
}

/// After recording an uninstall, the package is no longer listed and every
/// other package that was listed still is.
pub proof fn law_uninstall_removes(s: Seq<Seq<char>>, name: Seq<char>, other: Seq<char>)
    ensures
        !after_uninstall(s, name).contains(name),
        other != name ==> (after_uninstall(s, name).contains(other) == s.contains(other)),
{
    let f = differs_from(name);
    lemma_keep_subset(s, f, name);
    lemma_keep_subset(s, f, other);
    assert(!f(name));
    assert(other != name ==> f(other));
}

/// Installing a package that was not listed and then uninstalling it gives the list back as it was.
pub proof fn law_install_then_uninstall(s: Seq<Seq<char>>, name: Seq<char>)
    requires
        !s.contains(name),
    ensures
        after_uninstall(after_install(s, name), name) == s,
{
    let f = differs_from(name);
    assert forall|i: int| 0 <= i < s.len() implies f(#[trigger] s[i]) by {
        assert(s.contains(s[i]));
    }
    lemma_keep_all(s, f);
    let t = s.push(name);
    assert(t.drop_last() =~= s);
    assert(t.last() == name);
    assert(!f(name));
    assert(after_install(s, name) == t);
}

/// Marks `name` disabled in the configuration if it is configured and enabled;
/// returns whether anything changed (then the file must be saved).
pub fn disable_after_uninstall(config: &mut Config, name: &str) -> (changed: bool)
    ensures
        changed == (lookup(old(config).packages@, name@) matches Some(p) && p.enabled),
        forall|x: Seq<char>| #[trigger] has_key(final(config).packages@, x) == has_key(old(config).packages@, x),
        forall|x: Seq<char>| x != name@ ==> #[trigger] lookup(final(config).packages@, x) == lookup(old(config).packages@, x),
        changed ==> lookup(final(config).packages@, name@)
            == Some(crate::registry::with_enabled(lookup(old(config).packages@, name@)->0, false)),
        !changed ==> final(config).packages@ == old(config).packages@,
        final(config).plugins@ == old(config).plugins@,
{
    let enabled = match config.packages.get(name) {
        Some(p) => p.enabled,
        None => false,
    };
    if !enabled {
        return false;
    }
    let mut pkg = config.packages.remove(name).unwrap();
    pkg.enabled = false;
    let mut key = String::new();
    crate::text::push_str(&mut key, name);
    config.packages.insert(key, pkg);
    true
}

/// Records the effect of a successful script run: an install adds the package
/// to the installed list; an uninstall removes it and disables it in the
/// configuration if it was enabled (the returned flag says whether the
/// configuration changed and must be saved); an update changes nothing.
pub fn update_state_per_package(state: &mut State, config: &mut Config, action: crate::plan::Action, name: &str) -> (config_changed: bool)
    ensures
        action == crate::plan::Action::Install ==> strs(final(state).installed@) == after_install(strs(old(state).installed@), name@)
            && !config_changed && final(config).packages@ == old(config).packages@,
        action == crate::plan::Action::Update ==> strs(final(state).installed@) == strs(old(state).installed@)
            && !config_changed && final(config).packages@ == old(config).packages@,
        action == crate::plan::Action::Uninstall ==> {
            &&& strs(final(state).installed@) == after_uninstall(strs(old(state).installed@), name@)
            &&& config_changed == (lookup(old(config).packages@, name@) matches Some(p) && p.enabled)
            &&& forall|x: Seq<char>| #[trigger] has_key(final(config).packages@, x) == has_key(old(config).packages@, x)
            &&& forall|x: Seq<char>| x != name@ ==> #[trigger] lookup(final(config).packages@, x) == lookup(old(config).packages@, x)
            &&& config_changed ==> lookup(final(config).packages@, name@)
                == Some(crate::registry::with_enabled(lookup(old(config).packages@, name@)->0, false))
            &&& !config_changed ==> final(config).packages@ == old(config).packages@
        },
        final(config).plugins@ == old(config).plugins@,
{
    match action {
        crate::plan::Action::Install => {
            state.record_install(name);
            false
        },
        crate::plan::Action::Uninstall => {
            state.record_uninstall(name);
            disable_after_uninstall(config, name)
        },
        crate::plan::Action::Update => false,
    }
}

} // verus!
