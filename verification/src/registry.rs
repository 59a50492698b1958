//! Declaring packages in the configuration and editing their declarations.
use vstd::prelude::*;
use crate::config::{Config, PackageConfig, contains_str, is_default_package};
use crate::error::Failure;
use crate::strmap::{StrMap, has_key, keys_of, lookup};
use crate::table::column_width;
use crate::text::{byte_len_of, owned, pad_right, push_line, push_padded, push_str, repeat, repeat_char,
    strs, unlines, join_sep, join_strings};

verus! {

/// `prefix`, then `name`, then `suffix`.
pub fn message3(prefix: &str, name: &str, suffix: &str) -> (r: String)
    ensures
        r@ == prefix@ + name@ + suffix@,
{
    let mut r = owned(prefix);
    push_str(&mut r, name);
    push_str(&mut r, suffix);
    r
}

/// `prefix` followed by `name`.
pub fn message2(prefix: &str, name: &str) -> (r: String)
    ensures
        r@ == prefix@ + name@,
{
    let mut r = owned(prefix);
    push_str(&mut r, name);
    r
}

/// The error for a package that is not in the configuration.
pub open spec fn package_not_found(name: Seq<char>) -> Seq<char> {
    "Package '"@ + name + "' not found"@
}

/// Fails with `Package '<name>' not found` unless the package is configured.
pub fn require_package(config: &Config, name: &str) -> (r: Result<(), Failure>)
    ensures
        r is Ok <==> has_key(config.packages@, name@),
        r matches Err(e) ==> e == Failure::Other(e->Other_0) && e->Other_0@ == package_not_found(name@),
{
    if config.packages.contains_key(name) {
        Ok(())
    } else {
        Err(Failure::Other(message3("Package '", name, "' not found")))
    }
}

/// `yes` or `no`.
pub open spec fn yes_no(b: bool) -> Seq<char> {
    if b {
        "yes"@
    } else {
        "no"@
    }
}

fn yes_no_str(b: bool) -> (r: &'static str)
    ensures
        r@ == yes_no(b),
{
    if b {
        "yes"
    } else {
        "no"
    }
}

/// The lines of `package list`: every configured package with whether it is
/// enabled and whether it is installed on this machine.
pub open spec fn package_table_lines(config: Config, installed: Seq<Seq<char>>) -> Seq<Seq<char>> {
    let ps = config.packages@;
    let w = column_width(keys_of(ps), 7);
    seq![
        pad_right("Package"@, w) + "  "@ + pad_right("Enabled"@, 7) + "  Installed"@,
        pad_right(repeat_char('-', w), w) + "  "@ + pad_right("-------"@, 7) + "  ---------"@,
    ] + Seq::new(ps.len(), |i: int| package_row(ps[i].0, ps[i].1.enabled, installed.contains(ps[i].0), w))
}

/// One package's line of `package list`.
pub open spec fn package_row(name: Seq<char>, enabled: bool, installed: bool, w: nat) -> Seq<char> {
    pad_right(name, w) + "  "@ + pad_right(yes_no(enabled), 7) + "  "@ + yes_no(installed)
}

fn push_package_row(out: &mut String, name: &str, enabled: bool, installed: bool, w: usize)
    ensures
        final(out)@ == old(out)@ + package_row(name@, enabled, installed, w as nat) + "\n"@,
{
    push_padded(out, name, w);
    push_str(out, "  ");
    push_padded(out, yes_no_str(enabled), 7);
    push_str(out, "  ");
    push_line(out, yes_no_str(installed));
}

fn name_width<T>(m: &StrMap<T>, min: usize) -> (w: usize)
    ensures
        w as nat == column_width(keys_of(m@), min as nat),
{
    let ghost col = keys_of(m@);
    let n = m.len();
    let mut w = min;
    let mut i: usize = 0;
    while i < n
        invariant
            n == m@.len(),
            col == keys_of(m@),
            i <= n,
            w as nat == column_width(col.take(i as int), min as nat),
        decreases n - i,
    {
        let (k, _v) = m.entry(i);
        let b = byte_len_of(k.as_str());
        assert(col.take(i + 1).drop_last() =~= col.take(i as int));
        if b > w {
            w = b;
        }
        i = i + 1;
    }
    assert(col.take(n as int) =~= col);
    w
}

/// The table `package list` prints, each line ending in a newline.
pub fn list_to(config: &Config, installed: &[String]) -> (r: String)
    ensures
        r@ == unlines(package_table_lines(*config, strs(installed@))),
{
    let ghost lines = package_table_lines(*config, strs(installed@));
    let w = name_width(&config.packages, 7);
    let mut out = String::new();
    push_padded(&mut out, "Package", w);
    push_str(&mut out, "  ");
    push_padded(&mut out, "Enabled", 7);
    push_line(&mut out, "  Installed");
    let dashes = repeat('-', w);
    push_padded(&mut out, dashes.as_str(), w);
    push_str(&mut out, "  ");
    push_padded(&mut out, "-------", 7);
    push_line(&mut out, "  ---------");
    proof {
        assert(lines.take(2).drop_last() =~= lines.take(1));
        assert(lines.take(1).drop_last() =~= lines.take(0));
        assert(unlines(lines.take(0)) =~= Seq::<char>::empty());
        assert(unlines(lines.take(1)) =~= lines[0] + "\n"@);
        assert(unlines(lines.take(2)) =~= lines[0] + "\n"@ + lines[1] + "\n"@);
        assert(out@ =~= unlines(lines.take(2)));
    }
    let n = config.packages.len();
    let mut i: usize = 0;
    while i < n
        invariant
            n == config.packages@.len(),
            lines == package_table_lines(*config, strs(installed@)),
            lines.len() == n + 2,
            w as nat == column_width(keys_of(config.packages@), 7),
            i <= n,
            out@ == unlines(lines.take(i + 2)),
        decreases n - i,
    {
        let (name, pkg) = config.packages.entry(i);
        let inst = contains_str(installed, name.as_str());
        push_package_row(&mut out, name.as_str(), pkg.enabled, inst, w);
        proof {
            assert(lines[i + 2] == package_row(name@, pkg.enabled, inst, w as nat));
            assert(lines.take(i + 3).drop_last() =~= lines.take(i + 2));
            assert(lines.take(i + 3).last() == lines[i + 2]);
        }
        i = i + 1;
    }
    assert(lines.take(n + 2int) =~= lines);
    out
}

/// The declaration `package add` writes: the defaults, with the given
/// dependencies, script aliases, plugin and parameters.
pub open spec fn added_package(pkg: PackageConfig, depends_on: Seq<Seq<char>>, aliases: StrMap<String>,
    plugin: Option<Seq<char>>, params: StrMap<String>) -> bool {
    &&& pkg.enabled
    &&& !pkg.archived
    &&& strs(pkg.depends_on@) == depends_on
    &&& pkg.script_aliases@ == aliases@
    &&& (match pkg.plugin {
        Some(p) => plugin == Some(p@),
        None => plugin is None,
    })
    &&& pkg.params@ == params@
}

/// The error for declaring a package twice.
pub open spec fn package_exists(name: Seq<char>) -> Seq<char> {
    "Package '"@ + name + "' already exists"@
}

/// Declares `package`; fails if it is already declared, leaving the configuration as it was.
pub fn add_package(config: &mut Config, package: &str, depends_on: &[String], script_aliases: StrMap<String>,
    plugin: Option<&str>, params: StrMap<String>) -> (r: Result<(), Failure>)
    ensures
        r is Err <==> has_key(old(config).packages@, package@),
        r matches Err(e) ==> e == Failure::Other(e->Other_0) && e->Other_0@ == package_exists(package@),
        r is Err ==> *final(config) == *old(config),
        r is Ok ==> {
            &&& lookup(final(config).packages@, package@) matches Some(p)
            &&& added_package(p, strs(depends_on@), script_aliases, match plugin {
                Some(x) => Some(x@),
                None => None,
            }, params)
        },
        r is Ok ==> forall|x: Seq<char>| x != package@ ==> #[trigger] lookup(final(config).packages@, x) == lookup(old(config).packages@, x),
        r is Ok ==> forall|x: Seq<char>| #[trigger] has_key(final(config).packages@, x) == (x == package@ || has_key(old(config).packages@, x)),
        final(config).plugins@ == old(config).plugins@,
{
    if config.packages.contains_key(package) {
        return Err(Failure::Other(message3("Package '", package, "' already exists")));
    }
    let pkg = PackageConfig {
        script_aliases,
        enabled: true,
        archived: false,
        depends_on: crate::config::clone_strings(depends_on),
        plugin: match plugin {
            Some(p) => Some(owned(p)),
            None => None,
        },
        params,
    };
    config.packages.insert(owned(package), pkg);
    Ok(())
}

/// The error when the package directory is already there.
pub open spec fn package_dir_exists(name: Seq<char>) -> Seq<char> {
    "Package directory '"@ + name + "' already exists. Remove it first to re-create."@
}

/// The error `package add` ends with when the package's directory already exists.
pub fn package_dir_exists_error(package: &str) -> (r: Failure)
    ensures
        r == Failure::Other(r->Other_0) && r->Other_0@ == package_dir_exists(package@),
{
    Failure::Other(message3("Package directory '", package, "' already exists. Remove it first to re-create."))
}

/// The error for a plugin that is not installed under the plugins directory.
pub open spec fn plugin_not_added(name: Seq<char>) -> Seq<char> {
    "Plugin '"@ + name + "' not found. Add it first with: homeos plugin add "@ + name
}

/// The error `package add --plugin` ends with when the plugin's directory is missing.
pub fn plugin_not_added_error(plugin: &str) -> (r: Failure)
    ensures
        r == Failure::Other(r->Other_0) && r->Other_0@ == plugin_not_added(plugin@),
{
    let mut m = message3("Plugin '", plugin, "' not found. Add it first with: homeos plugin add ");
    push_str(&mut m, plugin);
    Failure::Other(m)
}

/// The parameters a plugin requires that were not given, in the manifest's order.
pub open spec fn missing_params(required: Seq<Seq<char>>, given: StrMap<String>) -> Seq<Seq<char>> {
    required.filter(|p: Seq<char>| !has_key(given@, p))
}

/// Checks that every parameter the plugin's manifest requires was given.
pub fn check_params(required: &[String], given: &StrMap<String>) -> (r: Result<(), Failure>)
    ensures
        r is Ok <==> missing_params(strs(required@), *given).len() == 0,
        r matches Err(e) ==> e == Failure::Other(e->Other_0)
            && e->Other_0@ == "Missing required plugin parameters: "@ + join_sep(missing_params(strs(required@), *given), ", "@),
{
    let ghost req = strs(required@);
    let mut missing: Vec<String> = Vec::new();
    let mut i: usize = 0;
    while i < required.len()
        invariant
            req == strs(required@),
            i <= required@.len(),
            strs(missing@) == missing_params(req.take(i as int), *given),
        decreases required.len() - i,
    {
        proof {
            assert(req.take(i + 1).drop_last() =~= req.take(i as int));
            reveal(Seq::filter);
            assert(req.take(i + 1).last() == required@[i as int]@);
        }
        if !given.contains_key(required[i].as_str()) {
            missing.push(required[i].clone());
            assert(strs(missing@) =~= missing_params(req.take(i + 1), *given));
        } else {
            assert(strs(missing@) =~= missing_params(req.take(i + 1), *given));
        }
        i = i + 1;
    }
    assert(req.take(required@.len() as int) =~= req);
    if missing.len() == 0 {
        Ok(())
    } else {
        let mut m = owned("Missing required plugin parameters: ");
        push_str(&mut m, join_strings(&missing, ", ").as_str());
        Err(Failure::Other(m))
    }
}

/// The six scripts a new package starts with: each action, for each platform.
pub open spec fn skeleton_list() -> Seq<(Seq<char>, Seq<char>)> {
    seq![
        ("install"@, "sh"@),
        ("install"@, "ps1"@),
        ("update"@, "sh"@),
        ("update"@, "ps1"@),
        ("uninstall"@, "sh"@),
        ("uninstall"@, "ps1"@),
    ]
}

/// The (action, extension) pairs of the scripts a new package starts with.
pub fn skeleton_scripts() -> (r: Vec<(&'static str, &'static str)>)
    ensures
        r@.map_values(|p: (&'static str, &'static str)| (p.0@, p.1@)) == skeleton_list(),
{
    let mut v: Vec<(&'static str, &'static str)> = Vec::new();
    v.push(("install", "sh"));
    v.push(("install", "ps1"));
    v.push(("update", "sh"));
    v.push(("update", "ps1"));
    v.push(("uninstall", "sh"));
    v.push(("uninstall", "ps1"));
    assert(v@.map_values(|p: (&'static str, &'static str)| (p.0@, p.1@)) =~= skeleton_list());
    v
}

/// The placeholder script a new package starts with: a comment naming the
/// action and package, after a `sh` shebang except in a PowerShell script.
pub open spec fn skeleton_content(action: Seq<char>, ext: Seq<char>, package: Seq<char>) -> Seq<char> {
    let body = "# Generated by homeos \u{2014} fill in the "@ + action + " logic for "@ + package + ".\n"@;
    if ext == "ps1"@ {
        body
    } else {
        "#!/usr/bin/env sh\n"@ + body
    }
}

/// The content of a new package's placeholder script.
pub fn skeleton_script_content(action: &str, ext: &str, package: &str) -> (r: String)
    ensures
        r@ == skeleton_content(action@, ext@, package@),
{
    let mut r = if crate::text::str_eq(ext, "ps1") {
        String::new()
    } else {
        owned("#!/usr/bin/env sh\n")
    };
    push_str(&mut r, "# Generated by homeos \u{2014} fill in the ");
    push_str(&mut r, action);
    push_str(&mut r, " logic for ");
    push_str(&mut r, package);
    push_str(&mut r, ".\n");
    r
}

/// The configured packages, other than those being removed, that declare a
/// dependency on `package`, in name order.
pub open spec fn dependents(config: Config, removing: Seq<Seq<char>>, package: Seq<char>) -> Seq<Seq<char>> {
    keys_of(config.packages@).filter(|n: Seq<char>| !removing.contains(n) && crate::config::depends(config, n, package))
}

/// The names of `config`'s packages that depend on `package` and are not being removed.
pub fn dependents_of(config: &Config, removing: &[String], package: &str) -> (r: Vec<String>)
    ensures
        strs(r@) == dependents(*config, strs(removing@), package@),
{
    let ghost keys = keys_of(config.packages@);
    let ghost f = |n: Seq<char>| !strs(removing@).contains(n) && crate::config::depends(*config, n, package@);
    let n = config.packages.len();
    let mut r: Vec<String> = Vec::new();
    let mut i: usize = 0;
    while i < n
        invariant
            n == config.packages@.len(),
            keys == keys_of(config.packages@),
            f == (|n: Seq<char>| !strs(removing@).contains(n) && crate::config::depends(*config, n, package@)),
            sorted_keys_of(*config),
            i <= n,
            strs(r@) == keys.take(i as int).filter(f),
        decreases n - i,
    {
        let (name, pkg) = config.packages.entry(i);
        proof {
            assert(keys.take(i + 1).drop_last() =~= keys.take(i as int));
            assert(keys.take(i + 1).last() == name@);
            reveal(Seq::filter);
            crate::strmap::lemma_lookup_at(config.packages@, i as int);
            assert(crate::config::dep_names(*config, name@) == strs(pkg.depends_on@));
        }
        if !contains_str(removing, name.as_str()) && contains_str(&pkg.depends_on, package) {
            r.push(name.clone());
            assert(strs(r@) =~= keys.take(i + 1).filter(f));
        } else {
            assert(strs(r@) =~= keys.take(i + 1).filter(f));
        }
        i = i + 1;
    }
    assert(keys.take(n as int) =~= keys);
    r
}

/// The configuration's package entries are in ascending name order.
pub open spec fn sorted_keys_of(config: Config) -> bool {
    crate::strmap::sorted_keys(config.packages@)
}

/// The error for removing an installed package.
pub open spec fn package_installed(name: Seq<char>) -> Seq<char> {
    "Package '"@ + name + "' is currently installed. Uninstall it first with: homeos package uninstall "@ + name
}

/// The error for removing a package others still depend on.
pub open spec fn package_depended_on(name: Seq<char>, by: Seq<Seq<char>>) -> Seq<char> {
    "Cannot remove package '"@ + name + "' because it is depended on by: "@ + join_sep(by, ", "@)
}

/// The first refusal of `package remove`, if any: an unknown package, else an
/// installed one, else one that a package staying behind depends on (each
/// time the first such package in the order given).
pub open spec fn remove_refusal(config: Config, ps: Seq<Seq<char>>, installed: Seq<Seq<char>>) -> Option<Seq<char>> {
    if exists|i: int| 0 <= i < ps.len() && !has_key(config.packages@, #[trigger] ps[i]) {
        let i = choose|i: int| 0 <= i < ps.len() && !has_key(config.packages@, #[trigger] ps[i])
            && forall|j: int| 0 <= j < i ==> has_key(config.packages@, #[trigger] ps[j]);
        Some(package_not_found(ps[i]))
    } else if exists|i: int| 0 <= i < ps.len() && installed.contains(#[trigger] ps[i]) {
        let i = choose|i: int| 0 <= i < ps.len() && installed.contains(#[trigger] ps[i])
            && forall|j: int| 0 <= j < i ==> !installed.contains(#[trigger] ps[j]);
        Some(package_installed(ps[i]))
    } else if exists|i: int| 0 <= i < ps.len() && #[trigger] dependents(config, ps, ps[i]).len() > 0 {
        let i = choose|i: int| 0 <= i < ps.len() && #[trigger] dependents(config, ps, ps[i]).len() > 0
            && forall|j: int| 0 <= j < i ==> #[trigger] dependents(config, ps, ps[j]).len() == 0;
        Some(package_depended_on(ps[i], dependents(config, ps, ps[i])))
    } else {
        None
    }
}

/// Checks that `packages` can be removed: each is configured, none is installed
/// (`installed` is empty when there is no state file), and no package that
/// stays depends on one of them.
pub fn check_removable(config: &Config, packages: &[String], installed: &[String]) -> (r: Result<(), Failure>)
    ensures
        r is Ok <==> remove_refusal(*config, strs(packages@), strs(installed@)) is None,
        r matches Err(e) ==> e == Failure::Other(e->Other_0)
            && Some(e->Other_0@) == remove_refusal(*config, strs(packages@), strs(installed@)),
{
    let ghost ps = strs(packages@);
    let ghost inst = strs(installed@);
    let mut i: usize = 0;
    while i < packages.len()
        invariant
            ps == strs(packages@),
            i <= packages@.len(),
            forall|j: int| 0 <= j < i ==> has_key(config.packages@, #[trigger] ps[j]),
        decreases packages.len() - i,
    {
        if !config.packages.contains_key(packages[i].as_str()) {
            proof {
                assert(ps[i as int] == packages@[i as int]@);
                assert(exists|k: int| 0 <= k < ps.len() && !has_key(config.packages@, #[trigger] ps[k]));
                let k = choose|k: int| 0 <= k < ps.len() && !has_key(config.packages@, #[trigger] ps[k])
                    && forall|j: int| 0 <= j < k ==> has_key(config.packages@, #[trigger] ps[j]);
                assert(k == i) by {
                    if k < i {
                        assert(has_key(config.packages@, ps[k]));
                    } else if k > i {
                        assert(has_key(config.packages@, ps[i as int]));
                    }
                }
            }
            return Err(Failure::Other(message3("Package '", packages[i].as_str(), "' not found")));
        }
        i = i + 1;
    }
    let mut i: usize = 0;
    while i < packages.len()
        invariant
            ps == strs(packages@),
            inst == strs(installed@),
            i <= packages@.len(),
            forall|j: int| 0 <= j < ps.len() ==> has_key(config.packages@, #[trigger] ps[j]),
            forall|j: int| 0 <= j < i ==> !inst.contains(#[trigger] ps[j]),
        decreases packages.len() - i,
    {
        if contains_str(installed, packages[i].as_str()) {
            proof {
                assert(ps[i as int] == packages@[i as int]@);
                assert(inst.contains(ps[i as int]));
                let k = choose|k: int| 0 <= k < ps.len() && inst.contains(#[trigger] ps[k])
                    && forall|j: int| 0 <= j < k ==> !inst.contains(#[trigger] ps[j]);
                assert(k == i) by {
                    if k < i {
                        assert(!inst.contains(ps[k]));
                    } else if k > i {
                        assert(!inst.contains(ps[i as int]));
                    }
                }
            }
            let mut m = message3("Package '", packages[i].as_str(), "' is currently installed. Uninstall it first with: homeos package uninstall ");
            push_str(&mut m, packages[i].as_str());
            return Err(Failure::Other(m));
        }
        i = i + 1;
    }
    let mut i: usize = 0;
    while i < packages.len()
        invariant
            ps == strs(packages@),
            inst == strs(installed@),
            i <= packages@.len(),
            forall|j: int| 0 <= j < ps.len() ==> has_key(config.packages@, #[trigger] ps[j]),
            forall|j: int| 0 <= j < ps.len() ==> !inst.contains(#[trigger] ps[j]),
            forall|j: int| 0 <= j < i ==> #[trigger] dependents(*config, ps, ps[j]).len() == 0,
        decreases packages.len() - i,
    {
        let deps = dependents_of(config, packages, packages[i].as_str());
        if deps.len() > 0 {
            proof {
                assert(ps[i as int] == packages@[i as int]@);
                assert(dependents(*config, ps, ps[i as int]).len() > 0);
                let k = choose|k: int| 0 <= k < ps.len() && #[trigger] dependents(*config, ps, ps[k]).len() > 0
                    && forall|j: int| 0 <= j < k ==> #[trigger] dependents(*config, ps, ps[j]).len() == 0;
                assert(k == i) by {
                    if k < i {
                        assert(dependents(*config, ps, ps[k]).len() == 0);
                    } else if k > i {
                        assert(dependents(*config, ps, ps[i as int]).len() == 0);
                    }
                }
            }
            let mut m = message3("Cannot remove package '", packages[i].as_str(), "' because it is depended on by: ");
            push_str(&mut m, join_strings(&deps, ", ").as_str());
            return Err(Failure::Other(m));
        }
        proof {
            assert(ps[i as int] == packages@[i as int]@);
        }
        i = i + 1;
    }
    Ok(())
}

/// The lines `package remove` shows before asking: the packages, then the
/// directories that `--purge` deletes, if any.
pub open spec fn remove_preview_lines(packages: Seq<Seq<char>>, dirs: Seq<Seq<char>>) -> Seq<Seq<char>> {
    seq!["The following packages will be removed from homeos.yml:"@]
        + packages.map_values(|p: Seq<char>| "  "@ + p)
        + if dirs.len() > 0 {
            seq!["\nThe following directories will be deleted:"@] + dirs.map_values(|d: Seq<char>| "  "@ + d)
        } else {
            Seq::empty()
        }
}

pub(crate) fn push_indented(out: &mut String, items: &[String])
    ensures
        final(out)@ == old(out)@ + unlines(strs(items@).map_values(|p: Seq<char>| "  "@ + p)),
{
    let ghost start = out@;
    let ghost ls = strs(items@).map_values(|p: Seq<char>| "  "@ + p);
    let mut i: usize = 0;
    while i < items.len()
        invariant
            i <= items@.len(),
            ls == strs(items@).map_values(|p: Seq<char>| "  "@ + p),
            out@ == start + unlines(ls.take(i as int)),
        decreases items.len() - i,
    {
        push_str(out, "  ");
        push_line(out, items[i].as_str());
        proof {
            assert(ls.take(i + 1).drop_last() =~= ls.take(i as int));
            assert(ls[i as int] == "  "@ + items@[i as int]@);
        }
        i = i + 1;
    }
    assert(ls.take(items@.len() as int) =~= ls);
}

/// Lemma: the lines of two lists, each followed by a newline, are the two texts one after the other.
pub proof fn lemma_unlines_append(a: Seq<Seq<char>>, b: Seq<Seq<char>>)
    ensures
        unlines(a + b) == unlines(a) + unlines(b),
    decreases b.len(),
{
    if b.len() == 0 {
        assert(a + b =~= a);
        assert(unlines(b) =~= Seq::<char>::empty());
        assert(unlines(a) + unlines(b) =~= unlines(a));
    } else {
        lemma_unlines_append(a, b.drop_last());
        assert((a + b).drop_last() =~= a + b.drop_last());
        assert(unlines(a) + unlines(b) =~= unlines(a) + unlines(b.drop_last()) + b.last() + "\n"@);
    }
}

/// The text `package remove` shows before asking for confirmation; `dirs`
/// are the package directories that exist and `--purge` would delete.
pub fn remove_preview(packages: &[String], dirs: &[String]) -> (r: String)
    ensures
        r@ == unlines(remove_preview_lines(strs(packages@), strs(dirs@))),
{
    let ghost head = seq!["The following packages will be removed from homeos.yml:"@];
    let ghost pl = strs(packages@).map_values(|p: Seq<char>| "  "@ + p);
    let ghost dl = strs(dirs@).map_values(|d: Seq<char>| "  "@ + d);
    let mut out = String::new();
    push_line(&mut out, "The following packages will be removed from homeos.yml:");
    proof {
        assert(head.drop_last() =~= Seq::<Seq<char>>::empty());
        assert(unlines(head) =~= unlines(Seq::<Seq<char>>::empty()) + head[0] + "\n"@);
    }
    push_indented(&mut out, packages);
    proof {
        lemma_unlines_append(head, pl);
    }
    if dirs.len() > 0 {
        let ghost dh = seq!["\nThe following directories will be deleted:"@];
        let ghost before = out@;
        push_line(&mut out, "\nThe following directories will be deleted:");
        proof {
            assert(dh.drop_last() =~= Seq::<Seq<char>>::empty());
            assert(unlines(dh) =~= unlines(Seq::<Seq<char>>::empty()) + dh[0] + "\n"@);
        }
        push_indented(&mut out, dirs);
        proof {
            lemma_unlines_append(dh, dl);
            lemma_unlines_append(head + pl, dh + dl);
            assert(remove_preview_lines(strs(packages@), strs(dirs@)) =~= head + pl + (dh + dl));
        }
    } else {
        proof {
            assert(remove_preview_lines(strs(packages@), strs(dirs@)) =~= head + pl);
        }
    }
    out
}

/// Removes the declarations of `packages`; every other package is kept as it was.
pub fn remove_packages(config: &mut Config, packages: &[String])
    ensures
        forall|x: Seq<char>| #[trigger] lookup(final(config).packages@, x)
            == (if strs(packages@).contains(x) { None } else { lookup(old(config).packages@, x) }),
        forall|x: Seq<char>| #[trigger] has_key(final(config).packages@, x)
            == (!strs(packages@).contains(x) && has_key(old(config).packages@, x)),
        final(config).plugins@ == old(config).plugins@,
{
    let ghost ps = strs(packages@);
    let ghost start = config.packages@;
    let mut i: usize = 0;
    while i < packages.len()
        invariant
            ps == strs(packages@),
            i <= packages@.len(),
            config.plugins@ == old(config).plugins@,
            start == old(config).packages@,
            forall|x: Seq<char>| #[trigger] lookup(config.packages@, x)
                == (if ps.take(i as int).contains(x) { None } else { lookup(start, x) }),
            forall|x: Seq<char>| #[trigger] has_key(config.packages@, x)
                == (!ps.take(i as int).contains(x) && has_key(start, x)),
        decreases packages.len() - i,
    {
        config.packages.remove(packages[i].as_str());
        proof {
            let t = ps.take(i + 1);
            assert(t =~= ps.take(i as int).push(ps[i as int]));
            assert forall|x: Seq<char>| t.contains(x) == (ps.take(i as int).contains(x) || x == ps[i as int]) by {
                if t.contains(x) {
                    let k = choose|k: int| 0 <= k < t.len() && t[k] == x;
                    if k < i {
                        assert(ps.take(i as int)[k] == x);
                    }
                }
                if ps.take(i as int).contains(x) {
                    let k = choose|k: int| 0 <= k < i && ps.take(i as int)[k] == x;
                    assert(t[k] == x);
                }
                if x == ps[i as int] {
                    assert(t[i as int] == x);
                }
            }
        }
        i = i + 1;
    }
    assert(ps.take(packages@.len() as int) =~= ps);
}

/// What `package remove` reports for one removed package.
pub open spec fn removed_message(package: Seq<char>, dir_removed: bool) -> Seq<char> {
    if dir_removed {
        "Removed package '"@ + package + "' and removed directory"@
    } else {
        "Removed package '"@ + package + "'"@
    }
}

/// The report line for a removed package (whether its directory was deleted too).
pub fn removed_message_for(package: &str, dir_removed: bool) -> (r: String)
    ensures
        r@ == removed_message(package@, dir_removed),
{
    if dir_removed {
        message3("Removed package '", package, "' and removed directory")
    } else {
        message3("Removed package '", package, "'")
    }
}

/// `a` and `b` agree on everything but their dependencies.
pub open spec fn same_but_deps(a: PackageConfig, b: PackageConfig) -> bool {
    &&& a.script_aliases@ == b.script_aliases@
    &&& a.enabled == b.enabled
    &&& a.archived == b.archived
    &&& a.plugin == b.plugin
    &&& a.params@ == b.params@
}

/// `a` and `b` agree on everything but their script aliases.
pub open spec fn same_but_aliases(a: PackageConfig, b: PackageConfig) -> bool {
    &&& strs(a.depends_on@) == strs(b.depends_on@)
    &&& a.enabled == b.enabled
    &&& a.archived == b.archived
    &&& a.plugin == b.plugin
    &&& a.params@ == b.params@
}

/// The dependency list after adding each of `new` in turn (one already listed is skipped).
pub open spec fn deps_after_add(s: Seq<Seq<char>>, new: Seq<Seq<char>>) -> Seq<Seq<char>>
    decreases new.len(),
{
    if new.len() == 0 {
        s
    } else {
        crate::state::after_install(deps_after_add(s, new.drop_last()), new.last())
    }
}

/// What `package add-dep` reports for each dependency.
pub open spec fn add_dep_messages(package: Seq<char>, s: Seq<Seq<char>>, new: Seq<Seq<char>>) -> Seq<Seq<char>>
    decreases new.len(),
{
    if new.len() == 0 {
        Seq::empty()
    } else {
        let d = new.last();
        add_dep_messages(package, s, new.drop_last()).push(
            if deps_after_add(s, new.drop_last()).contains(d) {
                "Package '"@ + package + "' already depends on '"@ + d + "'"@
            } else {
                "Added dependency '"@ + d + "' to package '"@ + package + "'"@
            },
        )
    }
}

/// `s` without its first occurrence of `x` (unchanged if there is none).
pub open spec fn remove_first(s: Seq<Seq<char>>, x: Seq<char>) -> Seq<Seq<char>>
    decreases s.len(),
{
    if s.len() == 0 {
        s
    } else if s[0] == x {
        s.skip(1)
    } else {
        seq![s[0]] + remove_first(s.skip(1), x)
    }
}

/// The dependency list after removing each of `gone` in turn.
pub open spec fn deps_after_remove(s: Seq<Seq<char>>, gone: Seq<Seq<char>>) -> Seq<Seq<char>>
    decreases gone.len(),
{
    if gone.len() == 0 {
        s
    } else {
        remove_first(deps_after_remove(s, gone.drop_last()), gone.last())
    }
}

/// What `package remove-dep` reports for each dependency.
pub open spec fn remove_dep_messages(package: Seq<char>, s: Seq<Seq<char>>, gone: Seq<Seq<char>>) -> Seq<Seq<char>>
    decreases gone.len(),
{
    if gone.len() == 0 {
        Seq::empty()
    } else {
        let d = gone.last();
        remove_dep_messages(package, s, gone.drop_last()).push(
            if deps_after_remove(s, gone.drop_last()).contains(d) {
                "Removed dependency '"@ + d + "' from package '"@ + package + "'"@
            } else {
                "Package '"@ + package + "' does not depend on '"@ + d + "'"@
            },
        )
    }
}

/// Removing the first occurrence of `x` at its first position `p`.
pub proof fn lemma_remove_first_at(s: Seq<Seq<char>>, x: Seq<char>, p: int)
    requires
        0 <= p < s.len(),
        s[p] == x,
        forall|j: int| 0 <= j < p ==> s[j] != x,
    ensures
        remove_first(s, x) == s.remove(p),
    decreases s.len(),
{
    if p == 0 {
        assert(s.skip(1) =~= s.remove(0));
    } else {
        lemma_remove_first_at(s.skip(1), x, p - 1);
        assert(seq![s[0]] + s.skip(1).remove(p - 1) =~= s.remove(p));
    }
}

/// Removing an absent element changes nothing.
pub proof fn lemma_remove_first_absent(s: Seq<Seq<char>>, x: Seq<char>)
    requires
        !s.contains(x),
    ensures
        remove_first(s, x) == s,
    decreases s.len(),
{
    if s.len() > 0 {
        assert(s[0] != x);
        assert forall|k: int| 0 <= k < s.skip(1).len() implies s.skip(1)[k] != x by {
            assert(s.skip(1)[k] == s[k + 1]);
        }
        lemma_remove_first_absent(s.skip(1), x);
        assert(seq![s[0]] + s.skip(1) =~= s);
    }
}

/// Adding a dependency that was not declared and then removing it gives the
/// dependency list back as it was.
pub proof fn law_add_dep_then_remove_dep(s: Seq<Seq<char>>, d: Seq<char>)
    requires
        !s.contains(d),
    ensures
        remove_first(deps_after_add(s, seq![d]), d) == s,
{
    assert(seq![d].drop_last() =~= Seq::<Seq<char>>::empty());
    assert(deps_after_add(s, Seq::<Seq<char>>::empty()) == s);
    assert(seq![d].last() == d);
    assert(deps_after_add(s, seq![d]) == crate::state::after_install(s, d));
    let t = s.push(d);
    assert forall|j: int| 0 <= j < s.len() implies t[j] != d by {
        assert(t[j] == s[j]);
        assert(s.contains(s[j]));
    }
    lemma_remove_first_at(t, d, s.len() as int);
    assert(t.remove(s.len() as int) =~= s);
}

/// Takes the declaration of a configured package out of the configuration.
fn take_package(config: &mut Config, package: &str) -> (r: PackageConfig)
    requires
        has_key(old(config).packages@, package@),
    ensures
        lookup(old(config).packages@, package@) == Some(r),
        forall|x: Seq<char>| #[trigger] lookup(final(config).packages@, x)
            == (if x == package@ { None } else { lookup(old(config).packages@, x) }),
        forall|x: Seq<char>| #[trigger] has_key(final(config).packages@, x)
            == (x != package@ && has_key(old(config).packages@, x)),
        final(config).plugins@ == old(config).plugins@,
{
    config.packages.remove(package).unwrap()
}

/// Adds each of `deps` to the dependencies of `package`, skipping those
/// already declared; returns a report line per dependency.
pub fn add_deps(config: &mut Config, package: &str, deps: &[String]) -> (r: Result<Vec<String>, Failure>)
    ensures
        r is Err <==> !has_key(old(config).packages@, package@),
        r matches Err(e) ==> e == Failure::Other(e->Other_0) && e->Other_0@ == package_not_found(package@),
        r is Err ==> *final(config) == *old(config),
        r matches Ok(msgs) ==> {
            let before = lookup(old(config).packages@, package@)->0;
            &&& lookup(final(config).packages@, package@) matches Some(p)
            &&& strs(p.depends_on@) == deps_after_add(strs(before.depends_on@), strs(deps@))
            &&& same_but_deps(p, before)
            &&& strs(msgs@) == add_dep_messages(package@, strs(before.depends_on@), strs(deps@))
        },
        r is Ok ==> forall|x: Seq<char>| x != package@ ==> #[trigger] lookup(final(config).packages@, x) == lookup(old(config).packages@, x),
        r is Ok ==> forall|x: Seq<char>| #[trigger] has_key(final(config).packages@, x) == has_key(old(config).packages@, x),
        final(config).plugins@ == old(config).plugins@,
{
    if !config.packages.contains_key(package) {
        return Err(Failure::Other(message3("Package '", package, "' not found")));
    }
    let mut pkg = take_package(config, package);
    let ghost before = pkg;
    let ghost s0 = strs(pkg.depends_on@);
    let ghost ds = strs(deps@);
    let mut msgs: Vec<String> = Vec::new();
    let mut i: usize = 0;
    while i < deps.len()
        invariant
            ds == strs(deps@),
            i <= deps@.len(),
            strs(pkg.depends_on@) == deps_after_add(s0, ds.take(i as int)),
            same_but_deps(pkg, before),
            strs(msgs@) == add_dep_messages(package@, s0, ds.take(i as int)),
        decreases deps.len() - i,
    {
        let d = &deps[i];
        proof {
            assert(ds.take(i + 1).drop_last() =~= ds.take(i as int));
            assert(ds.take(i + 1).last() == d@);
        }
        let ghost cur = strs(pkg.depends_on@);
        if contains_str(&pkg.depends_on, d.as_str()) {
            let mut m = message3("Package '", package, "' already depends on '");
            push_str(&mut m, d.as_str());
            push_str(&mut m, "'");
            msgs.push(m);
        } else {
            pkg.depends_on.push(d.clone());
            assert(strs(pkg.depends_on@) =~= cur.push(d@));
            let mut m = message3("Added dependency '", d.as_str(), "' to package '");
            push_str(&mut m, package);
            push_str(&mut m, "'");
            msgs.push(m);
        }
        assert(strs(msgs@) =~= add_dep_messages(package@, s0, ds.take(i + 1)));
        i = i + 1;
    }
    assert(ds.take(deps@.len() as int) =~= ds);
    config.packages.insert(owned(package), pkg);
    Ok(msgs)
}

/// Removes each of `deps` from the dependencies of `package` (its first
/// occurrence); returns a report line per dependency.
pub fn remove_deps(config: &mut Config, package: &str, deps: &[String]) -> (r: Result<Vec<String>, Failure>)
    ensures
        r is Err <==> !has_key(old(config).packages@, package@),
        r matches Err(e) ==> e == Failure::Other(e->Other_0) && e->Other_0@ == package_not_found(package@),
        r is Err ==> *final(config) == *old(config),
        r matches Ok(msgs) ==> {
            let before = lookup(old(config).packages@, package@)->0;
            &&& lookup(final(config).packages@, package@) matches Some(p)
            &&& strs(p.depends_on@) == deps_after_remove(strs(before.depends_on@), strs(deps@))
            &&& same_but_deps(p, before)
            &&& strs(msgs@) == remove_dep_messages(package@, strs(before.depends_on@), strs(deps@))
        },
        r is Ok ==> forall|x: Seq<char>| x != package@ ==> #[trigger] lookup(final(config).packages@, x) == lookup(old(config).packages@, x),
        r is Ok ==> forall|x: Seq<char>| #[trigger] has_key(final(config).packages@, x) == has_key(old(config).packages@, x),
        final(config).plugins@ == old(config).plugins@,
{
    if !config.packages.contains_key(package) {
        return Err(Failure::Other(message3("Package '", package, "' not found")));
    }
    let mut pkg = take_package(config, package);
    let ghost before = pkg;
    let ghost s0 = strs(pkg.depends_on@);
    let ghost ds = strs(deps@);
    let mut msgs: Vec<String> = Vec::new();
    let mut i: usize = 0;
    while i < deps.len()
        invariant
            ds == strs(deps@),
            i <= deps@.len(),
            strs(pkg.depends_on@) == deps_after_remove(s0, ds.take(i as int)),
            same_but_deps(pkg, before),
            strs(msgs@) == remove_dep_messages(package@, s0, ds.take(i as int)),
        decreases deps.len() - i,
    {
        let d = &deps[i];
        proof {
            assert(ds.take(i + 1).drop_last() =~= ds.take(i as int));
            assert(ds.take(i + 1).last() == d@);
        }
        let ghost cur = strs(pkg.depends_on@);
        let mut k: usize = 0;
        while k < pkg.depends_on.len()
            invariant
                k <= pkg.depends_on@.len(),
                cur == strs(pkg.depends_on@),
                forall|j: int| 0 <= j < k ==> cur[j] != d@,
            ensures
                k <= pkg.depends_on@.len(),
                forall|j: int| 0 <= j < k ==> cur[j] != d@,
                k < pkg.depends_on@.len() ==> cur[k as int] == d@,
            decreases pkg.depends_on.len() - k,
        {
            if crate::text::str_eq(pkg.depends_on[k].as_str(), d.as_str()) {
                break;
            }
            k = k + 1;
        }
        if k < pkg.depends_on.len() {
            pkg.depends_on.remove(k);
            proof {
                lemma_remove_first_at(cur, d@, k as int);
                assert(strs(pkg.depends_on@) =~= cur.remove(k as int));
                assert(cur.contains(d@));
            }
            let mut m = message3("Removed dependency '", d.as_str(), "' from package '");
            push_str(&mut m, package);
            push_str(&mut m, "'");
            msgs.push(m);
        } else {
            proof {
                lemma_remove_first_absent(cur, d@);
            }
            let mut m = message3("Package '", package, "' does not depend on '");
            push_str(&mut m, d.as_str());
            push_str(&mut m, "'");
            msgs.push(m);
        }
        assert(strs(msgs@) =~= remove_dep_messages(package@, s0, ds.take(i + 1)));
        i = i + 1;
    }
    assert(ds.take(deps@.len() as int) =~= ds);
    config.packages.insert(owned(package), pkg);
    Ok(msgs)
}

/// The alias stored for `target` after adding `aliases` in turn to a table
/// where it was `before` (an existing alias is never replaced).
pub open spec fn alias_after(before: Option<String>, aliases: Seq<(Seq<char>, String)>, target: Seq<char>) -> Option<String>
    decreases aliases.len(),
{
    if aliases.len() == 0 {
        before
    } else {
        let prev = alias_after(before, aliases.drop_last(), target);
        if prev is None && aliases.last().0 == target {
            Some(aliases.last().1)
        } else {
            prev
        }
    }
}

/// The alias pairs' target names and sources.
pub open spec fn pairs_view(v: Seq<(String, String)>) -> Seq<(Seq<char>, String)> {
    v.map_values(|p: (String, String)| (p.0@, p.1))
}

/// What `package add-alias` reports for each alias.
pub open spec fn add_alias_messages(package: Seq<char>, table: StrMap<String>, aliases: Seq<(Seq<char>, String)>) -> Seq<Seq<char>>
    decreases aliases.len(),
{
    if aliases.len() == 0 {
        Seq::empty()
    } else {
        let a = aliases.last();
        add_alias_messages(package, table, aliases.drop_last()).push(
            if alias_after(lookup(table@, a.0), aliases.drop_last(), a.0) is Some {
                "Package '"@ + package + "' already has alias '"@ + a.0 + "'"@
            } else {
                "Added alias '"@ + a.0 + "="@ + a.1@ + "' to package '"@ + package + "'"@
            },
        )
    }
}

/// Adds each `(target, source)` alias to `package` unless it already has one
/// for that target; returns a report line per alias.
pub fn add_aliases(config: &mut Config, package: &str, aliases: &[(String, String)]) -> (r: Result<Vec<String>, Failure>)
    ensures
        r is Err <==> !has_key(old(config).packages@, package@),
        r matches Err(e) ==> e == Failure::Other(e->Other_0) && e->Other_0@ == package_not_found(package@),
        r is Err ==> *final(config) == *old(config),
        r matches Ok(msgs) ==> {
            let before = lookup(old(config).packages@, package@)->0;
            &&& lookup(final(config).packages@, package@) matches Some(p)
            &&& forall|t: Seq<char>| #[trigger] lookup(p.script_aliases@, t)
                == alias_after(lookup(before.script_aliases@, t), pairs_view(aliases@), t)
            &&& same_but_aliases(p, before)
            &&& strs(msgs@) == add_alias_messages(package@, before.script_aliases, pairs_view(aliases@))
        },
        r is Ok ==> forall|x: Seq<char>| x != package@ ==> #[trigger] lookup(final(config).packages@, x) == lookup(old(config).packages@, x),
        r is Ok ==> forall|x: Seq<char>| #[trigger] has_key(final(config).packages@, x) == has_key(old(config).packages@, x),
        final(config).plugins@ == old(config).plugins@,
{
    if !config.packages.contains_key(package) {
        return Err(Failure::Other(message3("Package '", package, "' not found")));
    }
    let mut pkg = take_package(config, package);
    let ghost before = pkg;
    let ghost av = pairs_view(aliases@);
    let mut msgs: Vec<String> = Vec::new();
    let mut i: usize = 0;
    while i < aliases.len()
        invariant
            av == pairs_view(aliases@),
            i <= aliases@.len(),
            forall|t: Seq<char>| #[trigger] lookup(pkg.script_aliases@, t)
                == alias_after(lookup(before.script_aliases@, t), av.take(i as int), t),
            same_but_aliases(pkg, before),
            strs(msgs@) == add_alias_messages(package@, before.script_aliases, av.take(i as int)),
        decreases aliases.len() - i,
    {
        let (target, source) = &aliases[i];
        proof {
            assert(av.take(i + 1).drop_last() =~= av.take(i as int));
            assert(av.take(i + 1).last() == (target@, *source));
            assert(lookup(pkg.script_aliases@, target@)
                == alias_after(lookup(before.script_aliases@, target@), av.take(i as int), target@));
        }
        if pkg.script_aliases.contains_key(target.as_str()) {
            let mut m = message3("Package '", package, "' already has alias '");
            push_str(&mut m, target.as_str());
            push_str(&mut m, "'");
            msgs.push(m);
        } else {
            pkg.script_aliases.insert(target.clone(), source.clone());
            let mut m = message3("Added alias '", target.as_str(), "=");
            push_str(&mut m, source.as_str());
            push_str(&mut m, "' to package '");
            push_str(&mut m, package);
            push_str(&mut m, "'");
            msgs.push(m);
        }
        assert(strs(msgs@) =~= add_alias_messages(package@, before.script_aliases, av.take(i + 1)));
        i = i + 1;
    }
    assert(av.take(aliases@.len() as int) =~= av);
    config.packages.insert(owned(package), pkg);
    Ok(msgs)
}

/// What `package remove-alias` reports for each target.
pub open spec fn remove_alias_messages(package: Seq<char>, table: StrMap<String>, targets: Seq<Seq<char>>) -> Seq<Seq<char>>
    decreases targets.len(),
{
    if targets.len() == 0 {
        Seq::empty()
    } else {
        let t = targets.last();
        remove_alias_messages(package, table, targets.drop_last()).push(
            if has_key(table@, t) && !targets.drop_last().contains(t) {
                "Removed alias '"@ + t + "' from package '"@ + package + "'"@
            } else {
                "Package '"@ + package + "' does not have alias '"@ + t + "'"@
            },
        )
    }
}

/// Removes the aliases for `targets` from `package`; returns a report line per target.
pub fn remove_aliases(config: &mut Config, package: &str, targets: &[String]) -> (r: Result<Vec<String>, Failure>)
    ensures
        r is Err <==> !has_key(old(config).packages@, package@),
        r matches Err(e) ==> e == Failure::Other(e->Other_0) && e->Other_0@ == package_not_found(package@),
        r is Err ==> *final(config) == *old(config),
        r matches Ok(msgs) ==> {
            let before = lookup(old(config).packages@, package@)->0;
            &&& lookup(final(config).packages@, package@) matches Some(p)
            &&& forall|t: Seq<char>| #[trigger] lookup(p.script_aliases@, t)
                == (if strs(targets@).contains(t) { None } else { lookup(before.script_aliases@, t) })
            &&& same_but_aliases(p, before)
            &&& strs(msgs@) == remove_alias_messages(package@, before.script_aliases, strs(targets@))
        },
        r is Ok ==> forall|x: Seq<char>| x != package@ ==> #[trigger] lookup(final(config).packages@, x) == lookup(old(config).packages@, x),
        r is Ok ==> forall|x: Seq<char>| #[trigger] has_key(final(config).packages@, x) == has_key(old(config).packages@, x),
        final(config).plugins@ == old(config).plugins@,
{
    if !config.packages.contains_key(package) {
        return Err(Failure::Other(message3("Package '", package, "' not found")));
    }
    let mut pkg = take_package(config, package);
    let ghost before = pkg;
    let ghost ts = strs(targets@);
    let mut msgs: Vec<String> = Vec::new();
    let mut i: usize = 0;
    while i < targets.len()
        invariant
            ts == strs(targets@),
            i <= targets@.len(),
            forall|t: Seq<char>| #[trigger] lookup(pkg.script_aliases@, t)
                == (if ts.take(i as int).contains(t) { None } else { lookup(before.script_aliases@, t) }),
            forall|t: Seq<char>| #[trigger] has_key(pkg.script_aliases@, t)
                == (!ts.take(i as int).contains(t) && has_key(before.script_aliases@, t)),
            same_but_aliases(pkg, before),
            strs(msgs@) == remove_alias_messages(package@, before.script_aliases, ts.take(i as int)),
        decreases targets.len() - i,
    {
        let t = &targets[i];
        let ghost prev = ts.take(i as int);
        let ghost next = ts.take(i + 1);
        proof {
            assert(next.drop_last() =~= prev);
            assert(next.last() == t@);
            assert(next =~= prev.push(t@));
            assert forall|x: Seq<char>| next.contains(x) == (prev.contains(x) || x == t@) by {
                if next.contains(x) {
                    let k = choose|k: int| 0 <= k < next.len() && next[k] == x;
                    if k < i {
                        assert(prev[k] == x);
                    }
                }
                if prev.contains(x) {
                    let k = choose|k: int| 0 <= k < prev.len() && prev[k] == x;
                    assert(next[k] == x);
                }
                if x == t@ {
                    assert(next[i as int] == x);
                }
            }
        }
        let removed = pkg.script_aliases.remove(t.as_str());
        if removed.is_some() {
            let mut m = message3("Removed alias '", t.as_str(), "' from package '");
            push_str(&mut m, package);
            push_str(&mut m, "'");
            msgs.push(m);
        } else {
            let mut m = message3("Package '", package, "' does not have alias '");
            push_str(&mut m, t.as_str());
            push_str(&mut m, "'");
            msgs.push(m);
        }
        assert(strs(msgs@) =~= remove_alias_messages(package@, before.script_aliases, next));
        i = i + 1;
    }
    assert(ts.take(targets@.len() as int) =~= ts);
    config.packages.insert(owned(package), pkg);
    Ok(msgs)
}

/// Adding an alias records it for its target and leaves the other targets as they were.
pub proof fn law_add_alias_records(before: Option<String>, target: Seq<char>, source: String, other: Seq<char>, other_before: Option<String>)
    requires
        before is None,
    ensures
        alias_after(before, seq![(target, source)], target) == Some(source),
        other != target ==> alias_after(other_before, seq![(target, source)], other) == other_before,
{
    assert(seq![(target, source)].drop_last() =~= Seq::<(Seq<char>, String)>::empty());
    assert(seq![(target, source)].last() == (target, source));
    assert(alias_after(before, Seq::<(Seq<char>, String)>::empty(), target) == before);
    assert(alias_after(other_before, Seq::<(Seq<char>, String)>::empty(), other) == other_before);
}

/// Adding an alias for a target that had none and then removing that target
/// gives every target the alias it had before.
pub proof fn law_add_alias_then_remove(table: StrMap<String>, target: Seq<char>, source: String, x: Seq<char>)
    requires
        lookup(table@, target) is None,
    ensures
        (if seq![target].contains(x) {
            None
        } else {
            alias_after(lookup(table@, x), seq![(target, source)], x)
        }) == lookup(table@, x),
{
    law_add_alias_records(lookup(table@, target), target, source, x, lookup(table@, x));
    if x == target {
        assert(seq![target][0] == x);
    } else {
        assert(!seq![target].contains(x)) by {
            if seq![target].contains(x) {
                let k = choose|k: int| 0 <= k < 1 && seq![target][k] == x;
                assert(seq![target][k] == target);
            }
        }
    }
}

/// `p` with its `enabled` flag set to `v`.
pub open spec fn with_enabled(p: PackageConfig, v: bool) -> PackageConfig {
    PackageConfig { enabled: v, ..p }
}

/// The word for an enabled flag in `enable` / `disable` reports.
pub open spec fn state_word(v: bool) -> Seq<char> {
    if v {
        "enabled"@
    } else {
        "disabled"@
    }
}

/// The verb for turning the flag to `v`.
pub open spec fn state_verb(v: bool) -> Seq<char> {
    if v {
        "Enabled"@
    } else {
        "Disabled"@
    }
}

/// What `package enable` (`v` true) or `package disable` reports for each package.
pub open spec fn set_enabled_messages(config: Config, ps: Seq<Seq<char>>, v: bool) -> Seq<Seq<char>>
    decreases ps.len(),
{
    if ps.len() == 0 {
        Seq::empty()
    } else {
        let p = ps.last();
        let current = if ps.drop_last().contains(p) { v } else { lookup(config.packages@, p)->0.enabled };
        set_enabled_messages(config, ps.drop_last(), v).push(
            if current == v {
                "Package '"@ + p + "' is already "@ + state_word(v)
            } else {
                state_verb(v) + " package '"@ + p + "'"@
            },
        )
    }
}

/// Sets the `enabled` flag of each of `packages` to `value` (`package enable`
/// and `package disable`); returns a report line per package. Fails on the
/// first package that is not configured (the configuration is then not to be saved).
pub fn set_enabled(config: &mut Config, packages: &[String], value: bool) -> (r: Result<Vec<String>, Failure>)
    ensures
        r is Ok <==> forall|i: int| 0 <= i < packages@.len() ==> has_key(old(config).packages@, #[trigger] packages@[i]@),
        r matches Err(e) ==> exists|i: int| 0 <= i < packages@.len() && !has_key(old(config).packages@, #[trigger] packages@[i]@)
            && (forall|j: int| 0 <= j < i ==> has_key(old(config).packages@, #[trigger] packages@[j]@))
            && e == Failure::Other(e->Other_0) && e->Other_0@ == package_not_found(packages@[i]@),
        r matches Ok(msgs) ==> {
            &&& forall|x: Seq<char>| #[trigger] lookup(final(config).packages@, x) == (if strs(packages@).contains(x) {
                Some(with_enabled(lookup(old(config).packages@, x)->0, value))
            } else {
                lookup(old(config).packages@, x)
            })
            &&& forall|x: Seq<char>| #[trigger] has_key(final(config).packages@, x) == has_key(old(config).packages@, x)
            &&& strs(msgs@) == set_enabled_messages(*old(config), strs(packages@), value)
        },
        final(config).plugins@ == old(config).plugins@,
{
    let ghost ps = strs(packages@);
    let ghost start = *config;
    let mut msgs: Vec<String> = Vec::new();
    let mut i: usize = 0;
    while i < packages.len()
        invariant
            ps == strs(packages@),
            start == *old(config),
            config.plugins@ == old(config).plugins@,
            i <= packages@.len(),
            forall|j: int| 0 <= j < i ==> has_key(start.packages@, #[trigger] packages@[j]@),
            forall|x: Seq<char>| #[trigger] lookup(config.packages@, x) == (if ps.take(i as int).contains(x) {
                Some(with_enabled(lookup(start.packages@, x)->0, value))
            } else {
                lookup(start.packages@, x)
            }),
            forall|x: Seq<char>| #[trigger] has_key(config.packages@, x) == has_key(start.packages@, x),
            strs(msgs@) == set_enabled_messages(start, ps.take(i as int), value),
        decreases packages.len() - i,
    {
        let name = &packages[i];
        let ghost prev = ps.take(i as int);
        let ghost next = ps.take(i + 1);
        proof {
            assert(next.drop_last() =~= prev);
            assert(next.last() == name@);
            assert(next =~= prev.push(name@));
            assert forall|x: Seq<char>| next.contains(x) == (prev.contains(x) || x == name@) by {
                if next.contains(x) {
                    let k = choose|k: int| 0 <= k < next.len() && next[k] == x;
                    if k < i {
                        assert(prev[k] == x);
                    }
                }
                if prev.contains(x) {
                    let k = choose|k: int| 0 <= k < prev.len() && prev[k] == x;
                    assert(next[k] == x);
                }
                if x == name@ {
                    assert(next[i as int] == x);
                }
            }
        }
        if !config.packages.contains_key(name.as_str()) {
            proof {
                assert(!has_key(start.packages@, packages@[i as int]@));
            }
            return Err(Failure::Other(message3("Package '", name.as_str(), "' not found")));
        }
        let mut pkg = take_package(config, name.as_str());
        if pkg.enabled == value {
            let mut m = message3("Package '", name.as_str(), "' is already ");
            push_str(&mut m, if value { "enabled" } else { "disabled" });
            msgs.push(m);
        } else {
            let mut m = owned(if value { "Enabled" } else { "Disabled" });
            push_str(&mut m, " package '");
            push_str(&mut m, name.as_str());
            push_str(&mut m, "'");
            msgs.push(m);
        }
        pkg.enabled = value;
        config.packages.insert(name.clone(), pkg);
        assert(strs(msgs@) =~= set_enabled_messages(start, next, value));
        i = i + 1;
    }
    assert(ps.take(packages@.len() as int) =~= ps);
    Ok(msgs)
}

/// The names of a package's six possible scripts, in the order they are shown.
pub open spec fn script_file_list() -> Seq<Seq<char>> {
    skeleton_list().map_values(|p: (Seq<char>, Seq<char>)| p.0 + "."@ + p.1)
}

/// The file names `action.ext` of a package's scripts, for every action and platform.
pub fn script_file_names() -> (r: Vec<String>)
    ensures
        strs(r@) == script_file_list(),
{
    let pairs = skeleton_scripts();
    let ghost pv = pairs@.map_values(|p: (&'static str, &'static str)| (p.0@, p.1@));
    let mut r: Vec<String> = Vec::new();
    let mut i: usize = 0;
    while i < pairs.len()
        invariant
            pv == pairs@.map_values(|p: (&'static str, &'static str)| (p.0@, p.1@)),
            pv == skeleton_list(),
            i <= pairs@.len(),
            r@.len() == i,
            strs(r@) =~= script_file_list().take(i as int),
        decreases pairs.len() - i,
    {
        let (a, e) = pairs[i];
        let ghost before = r@;
        r.push(message3(a, ".", e));
        proof {
            assert forall|j: int| 0 <= j < i implies strs(r@)[j] == strs(before)[j] by {
                assert(r@[j] == before[j]);
            }
            assert(pv[i as int] == (a@, e@));
        }
        i = i + 1;
    }
    assert(script_file_list().take(6) =~= script_file_list());
    r
}

/// One file's section of a `cat` listing: a header line, then the content or `(not found)`.
pub open spec fn section_text(name: Seq<char>, content: Option<Seq<char>>) -> Seq<char> {
    "=== "@ + name + " ===\n"@ + match content {
        Some(c) => c,
        None => "(not found)\n"@,
    }
}

/// The file names and contents (`None` for a missing file) of the listed files.
pub open spec fn sections_view(v: Seq<(String, Option<String>)>) -> Seq<(Seq<char>, Option<Seq<char>>)> {
    v.map_values(|e: (String, Option<String>)| (e.0@, match e.1 {
        Some(c) => Some(c@),
        None => None,
    }))
}

fn push_section(out: &mut String, name: &str, content: &Option<String>)
    ensures
        final(out)@ == old(out)@ + section_text(name@, match content {
            Some(c) => Some(c@),
            None => None,
        }),
{
    push_str(out, "=== ");
    push_str(out, name);
    push_str(out, " ===\n");
    match content {
        Some(c) => push_str(out, c.as_str()),
        None => push_str(out, "(not found)\n"),
    }
}

/// The output of `package cat`: every script's section, a blank line between two sections.
pub fn package_cat_text(sections: &Vec<(String, Option<String>)>) -> (r: String)
    ensures
        r@ == join_sep(sections_view(sections@).map_values(|e: (Seq<char>, Option<Seq<char>>)| section_text(e.0, e.1)), "\n"@),
{
    let ghost ts = sections_view(sections@).map_values(|e: (Seq<char>, Option<Seq<char>>)| section_text(e.0, e.1));
    let mut out = String::new();
    let mut i: usize = 0;
    while i < sections.len()
        invariant
            ts == sections_view(sections@).map_values(|e: (Seq<char>, Option<Seq<char>>)| section_text(e.0, e.1)),
            i <= sections@.len(),
            out@ == join_sep(ts.take(i as int), "\n"@),
        decreases sections.len() - i,
    {
        let ghost before = out@;
        if i > 0 {
            push_str(&mut out, "\n");
        }
        push_section(&mut out, sections[i].0.as_str(), &sections[i].1);
        proof {
            let t = ts.take(i + 1);
            assert(t.drop_last() =~= ts.take(i as int));
            assert(t.last() == ts[i as int]);
            if i == 0 {
                assert(out@ =~= t[0]);
            }
        }
        i = i + 1;
    }
    assert(ts.take(sections@.len() as int) =~= ts);
    out
}

/// The message when a directory to enter does not exist.
pub open spec fn directory_missing(dir: Seq<char>) -> Seq<char> {
    "Directory not found at "@ + dir
}

/// The directory `package cd` enters: the packages directory, or that of the
/// given package, which must be configured.
pub fn resolve_cd_target(config: &Config, ctx: &crate::context::Context, package: Option<&str>) -> (r: Result<String, Failure>)
    ensures
        package is None ==> (r matches Ok(d) && d@ == crate::context::path_join(ctx.dir(), "packages"@, ctx.sep())),
        package matches Some(p) ==> (r is Ok <==> has_key(config.packages@, p@)),
        package matches Some(p) ==> (r matches Ok(d) && d@ == crate::context::path_join(
            crate::context::path_join(ctx.dir(), "packages"@, ctx.sep()), p@, ctx.sep())) || (r matches Err(e)
            && e == Failure::Other(e->Other_0) && e->Other_0@ == package_not_found(p@)),
{
    match package {
        Some(p) => {
            require_package(config, p)?;
            Ok(crate::context::join_path(ctx.packages_dir().as_str(), p, ctx.separator()))
        },
        None => Ok(ctx.packages_dir()),
    }
}

/// The directory to enter, if it exists; `package cd` fails with
/// `Directory not found at <dir>` otherwise.
pub fn require_dir(dir: String, exists: bool) -> (r: Result<String, Failure>)
    ensures
        exists ==> (r matches Ok(d) && d@ == dir@),
        !exists ==> (r matches Err(e) && e == Failure::Other(e->Other_0) && e->Other_0@ == directory_missing(dir@)),
{
    if exists {
        Ok(dir)
    } else {
        let mut m = owned("Directory not found at ");
        push_str(&mut m, dir.as_str());
        Err(Failure::Other(m))
    }
}

/// The placeholder scripts `package add` writes (name and content): those of
/// the six that do not exist yet (`exists[i]` tells whether the `i`-th does).
pub open spec fn skeleton_plan_spec(package: Seq<char>, exists: Seq<bool>) -> Seq<(Seq<char>, Seq<char>)>
    decreases exists.len(),
{
    if exists.len() == 0 || exists.len() > 6 {
        Seq::empty()
    } else {
        let i = exists.len() - 1;
        let rest = skeleton_plan_spec(package, exists.drop_last());
        if exists[i] {
            rest
        } else {
            rest.push((script_file_list()[i], skeleton_content(skeleton_list()[i].0, skeleton_list()[i].1, package)))
        }
    }
}

/// The placeholder scripts to write for a new package.
pub fn skeleton_plan(package: &str, exists: &[bool]) -> (r: Vec<(String, String)>)
    requires
        exists@.len() == 6,
    ensures
        crate::plugins::files_view(r@) == skeleton_plan_spec(package@, exists@),
{
    let pairs = skeleton_scripts();
    let names = script_file_names();
    let ghost pv = pairs@.map_values(|p: (&'static str, &'static str)| (p.0@, p.1@));
    assert(strs(names@).len() == 6);
    assert(pv.len() == 6);
    let mut r: Vec<(String, String)> = Vec::new();
    let mut i: usize = 0;
    while i < 6
        invariant
            pv == pairs@.map_values(|p: (&'static str, &'static str)| (p.0@, p.1@)),
            pv == skeleton_list(),
            strs(names@) == script_file_list(),
            names@.len() == 6,
            pairs@.len() == 6,
            exists@.len() == 6,
            i <= 6,
            crate::plugins::files_view(r@) =~= skeleton_plan_spec(package@, exists@.take(i as int)),
        decreases 6 - i,
    {
        let (a, e) = pairs[i];
        proof {
            assert(exists@.take(i + 1).drop_last() =~= exists@.take(i as int));
            assert(pv[i as int] == (a@, e@));
            assert(strs(names@)[i as int] == names@[i as int]@);
        }
        if !exists[i] {
            let content = skeleton_script_content(a, e, package);
            let ghost before = r@;
            r.push((names[i].clone(), content));
            proof {
                assert forall|j: int| 0 <= j < before.len() implies #[trigger] crate::plugins::files_view(r@)[j]
                    == crate::plugins::files_view(before)[j] by {
                    assert(r@[j] == before[j]);
                }
            }
        }
        i = i + 1;
    }
    assert(exists@.take(6) =~= exists@);
    r
}

/// The (template, script) file names a plugin package renders, one per action,
/// for the script extension `ext`.
pub open spec fn plugin_script_pairs(ext: Seq<char>) -> Seq<(Seq<char>, Seq<char>)> {
    seq!["install"@, "update"@, "uninstall"@].map_values(|a: Seq<char>| (a + "."@ + ext + ".tmpl"@, a + "."@ + ext))
}

/// What `package add` reports once the package is declared and its directory made.
pub fn added_message(package: &str) -> (r: String)
    ensures
        r@ == "Added package '"@ + package@ + "'"@,
{
    message3("Added package '", package, "'")
}

/// The (template, script) file names for each action, in the order install,
/// update, uninstall, for the script extension `ext`.
pub fn plugin_script_names(ext: &str) -> (r: Vec<(String, String)>)
    ensures
        crate::plugins::files_view(r@) == plugin_script_pairs(ext@),
{
    let mut r: Vec<(String, String)> = Vec::new();
    let actions: [&str; 3] = ["install", "update", "uninstall"];
    let mut i: usize = 0;
    while i < 3
        invariant
            i <= 3,
            actions@.len() == 3,
            actions@[0]@ == "install"@,
            actions@[1]@ == "update"@,
            actions@[2]@ == "uninstall"@,
            crate::plugins::files_view(r@) =~= plugin_script_pairs(ext@).take(i as int),
        decreases 3 - i,
    {
        let a = actions[i];
        let mut t = owned(a);
        push_str(&mut t, ".");
        push_str(&mut t, ext);
        let sc = t.clone();
        push_str(&mut t, ".tmpl");
        let ghost before = crate::plugins::files_view(r@);
        r.push((t, sc));
        proof {
            assert(crate::plugins::files_view(r@) =~= before.push((a@ + "."@ + ext@ + ".tmpl"@, a@ + "."@ + ext@)));
            assert(plugin_script_pairs(ext@).take(i + 1) =~= plugin_script_pairs(ext@).take(i as int).push(plugin_script_pairs(ext@)[i as int]));
        }
        i = i + 1;
    }
    r
}

/// The scripts `package add --plugin` renders: for each action whose template
/// exists (`template_exists[i]`) and whose script does not yet (`script_exists[i]`),
/// the template's and the script's file names.
pub fn plugin_script_plan(ext: &str, template_exists: &[bool], script_exists: &[bool]) -> (r: Vec<(String, String)>)
    requires
        template_exists@.len() == 3,
        script_exists@.len() == 3,
    ensures
        crate::plugins::files_view(r@) == keep_pairs(plugin_script_pairs(ext@), template_exists@, script_exists@),
{
    let mut actions: Vec<&'static str> = Vec::new();
    actions.push("install");
    actions.push("update");
    actions.push("uninstall");
    let ghost want = plugin_script_pairs(ext@);
    let mut r: Vec<(String, String)> = Vec::new();
    let mut i: usize = 0;
    while i < 3
        invariant
            actions@.len() == 3,
            actions@[0]@ == "install"@,
            actions@[1]@ == "update"@,
            actions@[2]@ == "uninstall"@,
            want == plugin_script_pairs(ext@),
            template_exists@.len() == 3,
            script_exists@.len() == 3,
            i <= 3,
            crate::plugins::files_view(r@) =~= keep_pairs(want.take(i as int), template_exists@.take(i as int), script_exists@.take(i as int)),
        decreases 3 - i,
    {
        let a = actions[i];
        proof {
            assert(want.take(i + 1).drop_last() =~= want.take(i as int));
            assert(template_exists@.take(i + 1).drop_last() =~= template_exists@.take(i as int));
            assert(script_exists@.take(i + 1).drop_last() =~= script_exists@.take(i as int));
            assert(want[i as int] == (a@ + "."@ + ext@ + ".tmpl"@, a@ + "."@ + ext@));
        }
        if template_exists[i] && !script_exists[i] {
            let script = message3(a, ".", ext);
            let mut tmpl = message3(a, ".", ext);
            push_str(&mut tmpl, ".tmpl");
            let ghost before = r@;
            r.push((tmpl, script));
            proof {
                assert forall|j: int| 0 <= j < before.len() implies #[trigger] crate::plugins::files_view(r@)[j]
                    == crate::plugins::files_view(before)[j] by {
                    assert(r@[j] == before[j]);
                }
            }
        }
        i = i + 1;
    }
    assert(want.take(3) =~= want);
    assert(template_exists@.take(3) =~= template_exists@);
    assert(script_exists@.take(3) =~= script_exists@);
    r
}

/// The pairs whose template exists and whose script does not.
pub open spec fn keep_pairs(ps: Seq<(Seq<char>, Seq<char>)>, t: Seq<bool>, s: Seq<bool>) -> Seq<(Seq<char>, Seq<char>)>
    decreases ps.len(),
{
    if ps.len() == 0 || t.len() != ps.len() || s.len() != ps.len() {
        Seq::empty()
    } else {
        let rest = keep_pairs(ps.drop_last(), t.drop_last(), s.drop_last());
        if t.last() && !s.last() {
            rest.push(ps.last())
        } else {
            rest
        }
    }
}

/// Adding the same dependency twice declares it once.
pub proof fn law_add_dep_idempotent(s: Seq<Seq<char>>, d: Seq<char>)
    ensures
        deps_after_add(s, seq![d, d]) == deps_after_add(s, seq![d]),
{
    assert(seq![d, d].drop_last() =~= seq![d]);
    assert(seq![d].drop_last() =~= Seq::<Seq<char>>::empty());
    assert(deps_after_add(s, Seq::<Seq<char>>::empty()) == s);
    crate::state::law_install_idempotent(s, d);
}

/// Setting the enabled flag twice to the same value is setting it once.
pub proof fn law_set_enabled_idempotent(p: PackageConfig, v: bool)
    ensures
        with_enabled(with_enabled(p, v), v) == with_enabled(p, v),
{
}

/// Enabling a disabled package and disabling it again gives its declaration back.
pub proof fn law_enable_then_disable_restores(p: PackageConfig)
    requires
        !p.enabled,
    ensures
        with_enabled(with_enabled(p, true), false) == p,
{
}

} // verus!
