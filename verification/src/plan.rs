//! The plan shown before packages are acted on, and the confirmation prompt.
use vstd::prelude::*;
use crate::config::{Config, contains_str};
use crate::error::Failure;
use crate::strmap::{has_key, lookup};
use crate::text::{strs, owned, push_str, str_eq, join_lines, join_with_newlines};

verus! {

/// The three actions a package script can perform.
#[derive(Clone, Copy, Debug, PartialEq, Eq, Structural)]
pub enum Action {
    Install,
    Update,
    Uninstall,
}

/// The name of an action, which is also the base name of its script.
pub open spec fn action_name(a: Action) -> Seq<char> {
    match a {
        Action::Install => "install"@,
        Action::Update => "update"@,
        Action::Uninstall => "uninstall"@,
    }
}

/// The progress verb of an action.
pub open spec fn action_gerund(a: Action) -> Seq<char> {
    match a {
        Action::Install => "Installing"@,
        Action::Update => "Updating"@,
        Action::Uninstall => "Uninstalling"@,
    }
}

impl Action {
    /// The name of the action (`install`, `update` or `uninstall`).
    pub fn as_str(&self) -> (r: &'static str)
        ensures
            r@ == action_name(*self),
    {
        match self {
            Action::Install => "install",
            Action::Update => "update",
            Action::Uninstall => "uninstall",
        }
    }

    /// The verb shown while the action runs.
    pub fn gerund(&self) -> (r: &'static str)
        ensures
            r@ == action_gerund(*self),
    {
        match self {
            Action::Install => "Installing",
            Action::Update => "Updating",
            Action::Uninstall => "Uninstalling",
        }
    }
}

/// The elements of `s` that satisfy `f`, in order.
pub open spec fn keep(s: Seq<Seq<char>>, f: spec_fn(Seq<char>) -> bool) -> Seq<Seq<char>>
    decreases s.len(),
{
    if s.len() == 0 {
        Seq::empty()
    } else if f(s.last()) {
        keep(s.drop_last(), f).push(s.last())
    } else {
        keep(s.drop_last(), f)
    }
}

/// The package `n` is configured and enabled.
pub open spec fn pkg_enabled(config: Config, n: Seq<char>) -> bool {
    lookup(config.packages@, n) matches Some(p) && p.enabled
}

/// The message of the error for an unknown package.
pub open spec fn package_not_found_message(name: Seq<char>) -> Seq<char> {
    "Package '"@ + name + "' not found"@
}

/// A plan describing which packages will be acted on and which are skipped.
#[derive(Debug)]
pub struct Plan {
    pub action: String,
    pub enabled: Vec<String>,
    pub disabled: Vec<String>,
    pub already_installed: Vec<String>,
}

/// The participle naming an action in the plan's header.
pub open spec fn plan_verb(action: Seq<char>) -> Seq<char> {
    if action == "install"@ {
        "installed"@
    } else if action == "update"@ {
        "updated"@
    } else if action == "uninstall"@ {
        "uninstalled"@
    } else {
        action
    }
}

/// The lines announcing the packages that will be acted on (none when there are none).
pub open spec fn enabled_lines(verb: Seq<char>, names: Seq<Seq<char>>) -> Seq<Seq<char>> {
    if names.len() == 0 {
        Seq::empty()
    } else {
        seq!["The following packages will be "@ + verb + ":"@] + names.map_values(
            |n: Seq<char>| "  "@ + n,
        )
    }
}

/// One `Skipping <name> (<why>)` line per name.
pub open spec fn skipping_lines(names: Seq<Seq<char>>, why: Seq<char>) -> Seq<Seq<char>> {
    names.map_values(|n: Seq<char>| "Skipping "@ + n + " ("@ + why + ")"@)
}

/// All lines of a plan's display.
pub open spec fn plan_lines(plan: Plan) -> Seq<Seq<char>> {
    enabled_lines(plan_verb(plan.action@), strs(plan.enabled@)) + skipping_lines(
        strs(plan.disabled@),
        "disabled"@,
    ) + skipping_lines(strs(plan.already_installed@), "already installed"@)
}

/// The text of the confirmation prompt.
pub open spec fn prompt_text() -> Seq<char> {
    "Proceed? [y/N] "@
}

/// Whether the answer read from the user confirms (exactly `y` or `Y` once trimmed).
pub open spec fn confirms(answer: Option<Seq<char>>) -> bool {
    match answer {
        Some(line) => trimmed(line) == "y"@ || trimmed(line) == "Y"@,
        None => false,
    }
}

/// The characters with the Unicode `White_Space` property (what `char::is_whitespace` accepts).
pub open spec fn is_whitespace(c: char) -> bool {
    ||| '\u{9}' <= c <= '\u{d}'
    ||| c == ' '
    ||| c == '\u{85}'
    ||| c == '\u{a0}'
    ||| c == '\u{1680}'
    ||| '\u{2000}' <= c <= '\u{200a}'
    ||| c == '\u{2028}'
    ||| c == '\u{2029}'
    ||| c == '\u{202f}'
    ||| c == '\u{205f}'
    ||| c == '\u{3000}'
}

/// `s` without its leading whitespace.
pub open spec fn trim_start_spec(s: Seq<char>) -> Seq<char>
    decreases s.len(),
{
    if s.len() > 0 && is_whitespace(s[0]) {
        trim_start_spec(s.skip(1))
    } else {
        s
    }
}

/// `s` without its trailing whitespace.
pub open spec fn trim_end_spec(s: Seq<char>) -> Seq<char>
    decreases s.len(),
{
    if s.len() > 0 && is_whitespace(s.last()) {
        trim_end_spec(s.drop_last())
    } else {
        s
    }
}

/// The text of `s` with leading and trailing whitespace removed.
pub open spec fn trimmed(s: Seq<char>) -> Seq<char> {
    trim_end_spec(trim_start_spec(s))
}

/// Whether `c` is whitespace (the Unicode `White_Space` property).
pub(crate) fn is_space(c: char) -> (b: bool)
    ensures
        b == is_whitespace(c),
{
    ('\u{9}' <= c && c <= '\u{d}') || c == ' ' || c == '\u{85}' || c == '\u{a0}' || c == '\u{1680}'
        || ('\u{2000}' <= c && c <= '\u{200a}') || c == '\u{2028}' || c == '\u{2029}' || c == '\u{202f}'
        || c == '\u{205f}' || c == '\u{3000}'
}

/// `s` with its leading and trailing whitespace removed (as `str::trim` does).
pub(crate) fn trim(s: &str) -> (r: String)
    ensures
        r@ == trimmed(s@),
{
    let cs = crate::text::chars_of(s);
    let n = cs.len();
    let mut lo: usize = 0;
    assert(cs@.skip(0) =~= cs@);
    while lo < n && is_space(cs[lo])
        invariant
            cs@ == s@,
            n == cs@.len(),
            lo <= n,
            trim_start_spec(s@) == trim_start_spec(cs@.skip(lo as int)),
        decreases n - lo,
    {
        assert(cs@.skip(lo as int)[0] == cs@[lo as int]);
        assert(cs@.skip(lo as int).skip(1) =~= cs@.skip(lo + 1));
        lo = lo + 1;
    }
    proof {
        if lo < n {
            assert(cs@.skip(lo as int)[0] == cs@[lo as int]);
        }
        assert(trim_start_spec(cs@.skip(lo as int)) == cs@.skip(lo as int));
        assert(cs@.skip(lo as int) =~= cs@.subrange(lo as int, n as int));
    }
    let mut hi: usize = n;
    while hi > lo && is_space(cs[hi - 1])
        invariant
            cs@ == s@,
            n == cs@.len(),
            lo <= hi <= n,
            trimmed(s@) == trim_end_spec(cs@.subrange(lo as int, hi as int)),
        decreases hi,
    {
        assert(cs@.subrange(lo as int, hi as int).last() == cs@[hi - 1]);
        assert(cs@.subrange(lo as int, hi as int).drop_last() =~= cs@.subrange(lo as int, hi - 1));
        hi = hi - 1;
    }
    proof {
        if hi > lo {
            assert(cs@.subrange(lo as int, hi as int).last() == cs@[hi - 1]);
        }
    }
    let mut r = String::new();
    let mut i: usize = lo;
    while i < hi
        invariant
            cs@ == s@,
            lo <= i <= hi,
            hi <= cs@.len(),
            r@ == cs@.subrange(lo as int, i as int),
        decreases hi - i,
    {
        crate::text::push_char(&mut r, cs[i]);
        assert(cs@.subrange(lo as int, i + 1) =~= cs@.subrange(lo as int, i as int).push(cs@[i as int]));
        i = i + 1;
    }
    r
}

impl Plan {
    /// Builds a plan for `action` over `packages`: each package is classified as
    /// disabled (its `enabled` flag is off), already installed (listed in
    /// `installed`), or to be acted on. Fails on the first unknown package.
    pub fn build(config: &Config, packages: &[String], action: &str, installed: &[String]) -> (r: Result<Plan, Failure>)
        ensures
            r is Ok <==> (forall|i: int| 0 <= i < packages@.len() ==> has_key(config.packages@, #[trigger] packages@[i]@)),
            r matches Ok(plan) ==> {
                &&& plan.action@ == action@
                &&& strs(plan.enabled@) == keep(strs(packages@), |n: Seq<char>| pkg_enabled(*config, n) && !strs(installed@).contains(n))
                &&& strs(plan.disabled@) == keep(strs(packages@), |n: Seq<char>| !pkg_enabled(*config, n))
                &&& strs(plan.already_installed@) == keep(strs(packages@), |n: Seq<char>| pkg_enabled(*config, n) && strs(installed@).contains(n))
            },
            r matches Err(e) ==> exists|i: int| 0 <= i < packages@.len() && !has_key(config.packages@, #[trigger] packages@[i]@)
                && (forall|j: int| 0 <= j < i ==> has_key(config.packages@, #[trigger] packages@[j]@))
                && e == Failure::Other(e->Other_0) && e->Other_0@ == package_not_found_message(packages@[i]@),
    {
        let ghost pv = strs(packages@);
        let ghost iv = strs(installed@);
        let ghost fe = |n: Seq<char>| pkg_enabled(*config, n) && !iv.contains(n);
        let ghost fd = |n: Seq<char>| !pkg_enabled(*config, n);
        let ghost fi = |n: Seq<char>| pkg_enabled(*config, n) && iv.contains(n);
        let mut enabled: Vec<String> = Vec::new();
        let mut disabled: Vec<String> = Vec::new();
        let mut already_installed: Vec<String> = Vec::new();
        let mut i: usize = 0;
        while i < packages.len()
            invariant
                pv == strs(packages@),
                iv == strs(installed@),
                fe == (|n: Seq<char>| pkg_enabled(*config, n) && !iv.contains(n)),
                fd == (|n: Seq<char>| !pkg_enabled(*config, n)),
                fi == (|n: Seq<char>| pkg_enabled(*config, n) && iv.contains(n)),
                i <= packages@.len(),
                forall|j: int| 0 <= j < i ==> has_key(config.packages@, #[trigger] packages@[j]@),
                strs(enabled@) == keep(pv.take(i as int), fe),
                strs(disabled@) == keep(pv.take(i as int), fd),
                strs(already_installed@) == keep(pv.take(i as int), fi),
            decreases packages.len() - i,
        {
            let name = &packages[i];
            let ghost before = pv.take(i as int);
            let ghost after = pv.take(i + 1);
            proof {
                assert(after.drop_last() =~= before);
                assert(after.last() == name@);
            }
            match config.packages.get(name.as_str()) {
                None => {
                    let mut msg = owned("Package '");
                    push_str(&mut msg, name.as_str());
                    push_str(&mut msg, "' not found");
                    return Err(Failure::Other(msg));
                },
                Some(pkg) => {
                    let inst = contains_str(installed, name.as_str());
                    if !pkg.enabled {
                        disabled.push(name.clone());
                    } else if inst {
                        already_installed.push(name.clone());
                    } else {
                        enabled.push(name.clone());
                    }
                    proof {
                        assert(strs(enabled@) =~= keep(after, fe));
                        assert(strs(disabled@) =~= keep(after, fd));
                        assert(strs(already_installed@) =~= keep(after, fi));
                    }
                },
            }
            i = i + 1;
        }
        proof {
            assert(pv.take(packages@.len() as int) =~= pv);
        }
        let mut a = String::new();
        push_str(&mut a, action);
        Ok(Plan { action: a, enabled, disabled, already_installed })
    }

    /// The plan as human-readable lines joined with newlines.
    pub fn display(&self) -> (r: String)
        ensures
            r@ == join_lines(plan_lines(*self)),
    {
        let mut lines: Vec<String> = Vec::new();
        let action = self.action.as_str();
        let verb: &str = if str_eq(action, "install") {
            "installed"
        } else if str_eq(action, "update") {
            "updated"
        } else if str_eq(action, "uninstall") {
            "uninstalled"
        } else {
            action
        };
        proof {
            assert(verb@ == plan_verb(self.action@));
        }
        let ghost en = strs(self.enabled@);
        if self.enabled.len() > 0 {
            let mut h = owned("The following packages will be ");
            push_str(&mut h, verb);
            push_str(&mut h, ":");
            lines.push(h);
            let ghost header = "The following packages will be "@ + plan_verb(self.action@) + ":"@;
            let mut i: usize = 0;
            while i < self.enabled.len()
                invariant
                    i <= self.enabled@.len(),
                    en == strs(self.enabled@),
                    strs(lines@) == seq![header] + en.take(i as int).map_values(|n: Seq<char>| "  "@ + n),
                decreases self.enabled.len() - i,
            {
                let mut l = owned("  ");
                push_str(&mut l, self.enabled[i].as_str());
                let ghost old_lines = strs(lines@);
                let ghost lv = l@;
                lines.push(l);
                proof {
                    assert(strs(lines@) =~= old_lines.push(lv));
                    assert(en.take(i + 1) =~= en.take(i as int).push(en[i as int]));
                    let f = |n: Seq<char>| "  "@ + n;
                    assert(en.take(i + 1).map_values(f) =~= en.take(i as int).map_values(f).push(f(en[i as int])));
                    assert(strs(lines@) =~= seq![header] + en.take(i + 1).map_values(f));
                }
                i = i + 1;
            }
            proof {
                assert(en.take(en.len() as int) =~= en);
            }
        }
        assert(strs(lines@) =~= enabled_lines(plan_verb(self.action@), en));
        let ghost base = strs(lines@);
        push_skipping(&mut lines, &self.disabled, "disabled");
        let ghost mid = strs(lines@);
        push_skipping(&mut lines, &self.already_installed, "already installed");
        proof {
            assert(strs(lines@) =~= plan_lines(*self));
        }
        join_with_newlines(&lines)
    }

    /// Whether the plan has no package to act on.
    pub fn is_empty(&self) -> (b: bool)
        ensures
            b == (self.enabled@.len() == 0),
    {
        self.enabled.len() == 0
    }
}

/// The lines naming the packages skipped because they wait on a dependency cycle.
pub fn circular_notice(names: &Vec<String>) -> (r: String)
    ensures
        r@ == join_lines(skipping_lines(strs(names@), "circular dependency"@)),
{
    let mut lines: Vec<String> = Vec::new();
    push_skipping(&mut lines, names, "circular dependency");
    assert(strs(lines@) =~= skipping_lines(strs(names@), "circular dependency"@));
    join_with_newlines(&lines)
}

/// Appends one `Skipping <name> (<why>)` line per name.
fn push_skipping(lines: &mut Vec<String>, names: &Vec<String>, why: &str)
    ensures
        strs(final(lines)@) == strs(old(lines)@) + skipping_lines(strs(names@), why@),
{
    let ghost start = strs(lines@);
    let mut i: usize = 0;
    while i < names.len()
        invariant
            i <= names@.len(),
            strs(lines@) == start + skipping_lines(strs(names@).take(i as int), why@),
        decreases names.len() - i,
    {
        let mut l = owned("Skipping ");
        push_str(&mut l, names[i].as_str());
        push_str(&mut l, " (");
        push_str(&mut l, why);
        push_str(&mut l, ")");
        let ghost old_lines = strs(lines@);
        let ghost lv = l@;
        lines.push(l);
        proof {
            let nv = strs(names@);
            assert(strs(lines@) =~= old_lines.push(lv));
            assert(nv.take(i + 1) =~= nv.take(i as int).push(nv[i as int]));
            let f = |n: Seq<char>| "Skipping "@ + n + " ("@ + why@ + ")"@;
            assert(nv.take(i + 1).map_values(f) =~= nv.take(i as int).map_values(f).push(f(nv[i as int])));
            assert(strs(lines@) =~= start + skipping_lines(strs(names@).take(i + 1), why@));
        }
        i = i + 1;
    }
    assert(strs(names@).take(names@.len() as int) =~= strs(names@));
}

/// Decides whether the answer read after the prompt confirms: only a line that
/// trims to `y` or `Y` does; a failed read (`None`) does not.
pub fn prompt_confirm(answer: Option<&str>) -> (b: bool)
    ensures
        b == confirms(match answer {
            Some(l) => Some(l@),
            None => None,
        }),
{
    match answer {
        Some(line) => {
            let t = trim(line);
            str_eq(t.as_str(), "y") || str_eq(t.as_str(), "Y")
        },
        None => false,
    }
}

/// The prompt written before the answer is read.
pub fn prompt() -> (r: &'static str)
    ensures
        r@ == prompt_text(),
{
    "Proceed? [y/N] "
}

/// What is shown before asking to confirm a plan: its display, a blank line, and the prompt.
pub fn confirm_plan(plan: &Plan) -> (r: String)
    ensures
        r@ == join_lines(plan_lines(*plan)) + "\n"@ + "\n"@ + prompt_text(),
{
    let mut r = plan.display();
    push_str(&mut r, "\n");
    push_str(&mut r, "\n");
    push_str(&mut r, prompt());
    r
}

/// A plan puts every package of a successful build in exactly one of its
/// lists: disabled, already installed, or to be acted on.
pub proof fn law_plan_classifies_each_package_once(config: Config, installed: Seq<Seq<char>>, n: Seq<char>)
    ensures
        (!pkg_enabled(config, n)) ^ (pkg_enabled(config, n) && installed.contains(n)) ^ (pkg_enabled(config, n) && !installed.contains(n)),
        !(!pkg_enabled(config, n) && pkg_enabled(config, n) && installed.contains(n)),
{
}

} // verus!
