//! The configuration file's data: packages, plugins and plugin manifests.
use vstd::prelude::*;
use crate::strmap::{StrMap, lookup};
pub use crate::text::strs;

verus! {

/// A plugin registered in the configuration; `url` is `None` for a local plugin.
pub struct PluginConfig {
    pub url: Option<String>,
}

/// A plugin's own description of itself (its `plugin.yml`).
pub struct PluginManifest {
    pub description: String,
    pub params: Vec<String>,
}

/// One package of the configuration.
pub struct PackageConfig {
    pub script_aliases: StrMap<String>,
    pub enabled: bool,
    pub archived: bool,
    pub depends_on: Vec<String>,
    pub plugin: Option<String>,
    pub params: StrMap<String>,
}

/// The whole configuration: packages and plugins, each keyed by name.
pub struct Config {
    pub packages: StrMap<PackageConfig>,
    pub plugins: StrMap<PluginConfig>,
}

impl Default for PluginConfig {
    fn default() -> (r: Self)
        ensures
            r.url is None,
    {
        PluginConfig { url: None }
    }
}

impl Default for PluginManifest {
    fn default() -> (r: Self)
        ensures
            r.description@.len() == 0,
            r.params@.len() == 0,
    {
        PluginManifest { description: String::new(), params: Vec::new() }
    }
}

/// Whether `pkg` holds the default settings of a newly declared package.
pub open spec fn is_default_package(pkg: PackageConfig) -> bool {
    &&& pkg.script_aliases@.len() == 0
    &&& pkg.enabled
    &&& !pkg.archived
    &&& pkg.depends_on@.len() == 0
    &&& pkg.plugin is None
    &&& pkg.params@.len() == 0
}

impl Default for PackageConfig {
    fn default() -> (r: Self)
        ensures
            is_default_package(r),
    {
        PackageConfig {
            script_aliases: StrMap::new(),
            enabled: true,
            archived: false,
            depends_on: Vec::new(),
            plugin: None,
            params: StrMap::new(),
        }
    }
}

impl Default for Config {
    fn default() -> (r: Self)
        ensures
            r.packages@.len() == 0,
            r.plugins@.len() == 0,
    {
        Config { packages: StrMap::new(), plugins: StrMap::new() }
    }
}

/// The value a package's `enabled` flag takes when the file leaves it out.
pub fn default_enabled() -> (b: bool)
    ensures
        b,
{
    true
}

/// Whether a flag is set (the `enabled` flag is written only when it is not).
pub fn is_true(v: &bool) -> (b: bool)
    ensures
        b == *v,
{
    *v
}

/// Whether a flag is clear (the `archived` flag is written only when it is set).
pub fn is_false(v: &bool) -> (b: bool)
    ensures
        b == !*v,
{
    !*v
}

/// The names `name` depends on, per the configuration (none for an unknown name).
pub open spec fn dep_names(config: Config, name: Seq<char>) -> Seq<Seq<char>> {
    match lookup(config.packages@, name) {
        Some(p) => strs(p.depends_on@),
        None => Seq::empty(),
    }
}

/// `a` declares a direct dependency on `b`.
pub open spec fn depends(config: Config, a: Seq<char>, b: Seq<char>) -> bool {
    dep_names(config, a).contains(b)
}

/// Whether `s` occurs in `v`.
pub fn contains_str(v: &[String], s: &str) -> (b: bool)
    ensures
        b == strs(v@).contains(s@),
{
    let mut i: usize = 0;
    while i < v.len()
        invariant
            i <= v@.len(),
            forall|j: int| 0 <= j < i ==> v@[j]@ != s@,
        decreases v.len() - i,
    {
        if crate::text::str_eq(v[i].as_str(), s) {
            assert(strs(v@)[i as int] == s@);
            return true;
        }
        i = i + 1;
    }
    assert forall|j: int| 0 <= j < strs(v@).len() implies strs(v@)[j] != s@ by {
        assert(v@[j]@ != s@);
    }
    false
}

/// A copy of a list of strings.
pub fn clone_strings(v: &[String]) -> (r: Vec<String>)
    ensures
        r@ == v@,
{
    let mut r: Vec<String> = Vec::new();
    let mut i: usize = 0;
    while i < v.len()
        invariant
            i <= v@.len(),
            r@ == v@.take(i as int),
        decreases v.len() - i,
    {
        r.push(v[i].clone());
        assert(v@.take(i + 1) =~= v@.take(i as int).push(v@[i as int]));
        i = i + 1;
    }
    assert(v@.take(v@.len() as int) =~= v@);
    r
}

/// The names of the entries of a map, in name order.
pub fn names_of<T>(m: &StrMap<T>) -> (r: Vec<String>)
    ensures
        strs(r@) == crate::strmap::keys_of(m@),
{
    let n = m.len();
    let mut r: Vec<String> = Vec::new();
    let mut i: usize = 0;
    while i < n
        invariant
            n == m@.len(),
            i <= n,
            r@.len() == i,
            strs(r@) =~= crate::strmap::keys_of(m@).take(i as int),
        decreases n - i,
    {
        let (k, _v) = m.entry(i);
        let ghost before = r@;
        r.push(k.clone());
        proof {
            assert forall|j: int| 0 <= j < i implies #[trigger] strs(r@)[j] == strs(before)[j] by {
                assert(r@[j] == before[j]);
            }
        }
        i = i + 1;
    }
    assert(crate::strmap::keys_of(m@).take(n as int) =~= crate::strmap::keys_of(m@));
    r
}

/// The candidates shell completion offers for a package argument: every configured package.
pub fn package_completions(config: &Config) -> (r: Vec<String>)
    ensures
        strs(r@) == crate::strmap::keys_of(config.packages@),
{
    names_of(&config.packages)
}

/// The candidates shell completion offers for a plugin argument: every configured plugin.
pub fn plugin_completions(config: &Config) -> (r: Vec<String>)
    ensures
        strs(r@) == crate::strmap::keys_of(config.plugins@),
{
    names_of(&config.plugins)
}

} // verus!
