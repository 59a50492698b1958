//! Listing, adding and removing plugins.
use vstd::prelude::*;
use crate::config::{Config, PluginConfig, PluginManifest};
use crate::context::{Context, path_join};
use crate::error::{Failure, HomeosError, json_quoted, json_string, reasons};
use crate::registry::{message2, message3, script_file_list, script_file_names, section_text};
use crate::strmap::{has_key, keys_of, lookup};
use crate::output::OutputFormat;
use crate::table::{rows_view, table_lines, table_text};
use crate::text::{lex_lt, owned, push_line, push_str, str_lt, strs, join_sep, join_strings, unlines};

verus! {

broadcast use vstd::seq_lib::group_to_multiset_ensures;

/// A plugin published on GitHub.
pub struct RemotePlugin {
    pub name: String,
    pub description: String,
    pub url: String,
}

/// Whether no plugin of `s` comes after one with a greater name.
pub open spec fn sorted_by_name(s: Seq<RemotePlugin>) -> bool {
    forall|i: int, j: int| 0 <= i < j < s.len() ==> !lex_lt(#[trigger] s[j].name@, #[trigger] s[i].name@)
}

/// The plugins named `key`.
pub open spec fn named(key: Seq<char>) -> spec_fn(RemotePlugin) -> bool {
    |p: RemotePlugin| p.name@ == key
}

/// Inserting `x` where every later plugin has another name appends `x` to the
/// plugins of its name and leaves the other names' plugins as they were.
proof fn lemma_insert_keeps_groups(r0: Seq<RemotePlugin>, k: int, x: RemotePlugin, key: Seq<char>)
    requires
        0 <= k <= r0.len(),
        forall|j: int| k <= j < r0.len() ==> (#[trigger] r0[j]).name@ != x.name@,
    ensures
        r0.insert(k, x).filter(named(key)) == (if x.name@ == key {
            r0.filter(named(key)).push(x)
        } else {
            r0.filter(named(key))
        }),
{
    let a = r0.take(k);
    let b = r0.skip(k);
    let f = named(key);
    assert(r0 =~= a + b);
    assert(r0.insert(k, x) =~= a.push(x) + b);
    Seq::filter_distributes_over_add(a, b, f);
    Seq::filter_distributes_over_add(a.push(x), b, f);
    a.lemma_filter_push(x, f);
    if x.name@ == key {
        assert forall|j: int| 0 <= j < b.len() implies !f(b[j]) by {
            assert(b[j] == r0[k + j]);
        }
        b.lemma_all_neg_filter_empty(f);
        assert(b.filter(f) =~= Seq::<RemotePlugin>::empty());
        assert(a.filter(f) + b.filter(f) =~= a.filter(f));
        assert(a.filter(f).push(x) + b.filter(f) =~= a.filter(f).push(x));
    }
}

/// The plugins ordered by name; plugins of the same name keep their order.
pub fn sort_by_name(plugins: Vec<RemotePlugin>) -> (r: Vec<RemotePlugin>)
    ensures
        r@.to_multiset() == plugins@.to_multiset(),
        sorted_by_name(r@),
        forall|key: Seq<char>| #[trigger] r@.filter(named(key)) == plugins@.filter(named(key)),
{
    let ghost orig = plugins@;
    let mut rest = plugins;
    let mut r: Vec<RemotePlugin> = Vec::new();
    let ghost mut n: int = 0;
    assert(orig.skip(0) =~= orig);
    assert forall|key: Seq<char>| #[trigger] r@.filter(named(key)) == orig.take(0).filter(named(key)) by {
        assert(orig.take(0) =~= r@);
    }
    while rest.len() > 0
        invariant
            r@.to_multiset().add(rest@.to_multiset()) == orig.to_multiset(),
            sorted_by_name(r@),
            0 <= n <= orig.len(),
            rest@ == orig.skip(n),
            forall|key: Seq<char>| #[trigger] r@.filter(named(key)) == orig.take(n).filter(named(key)),
        decreases rest.len(),
    {
        let ghost rest0 = rest@;
        let x = rest.remove(0);
        assert(rest0.remove(0) == rest@);
        proof {
            assert(x == orig[n]);
            assert(orig.take(n + 1) =~= orig.take(n).push(x));
            assert(rest@ =~= orig.skip(n + 1));
        }
        let mut k: usize = 0;
        while k < r.len()
            invariant
                k <= r@.len(),
                forall|j: int| 0 <= j < k ==> !lex_lt(x.name@, #[trigger] r@[j].name@),
            ensures
                k <= r@.len(),
                forall|j: int| 0 <= j < k ==> !lex_lt(x.name@, #[trigger] r@[j].name@),
                k < r@.len() ==> lex_lt(x.name@, r@[k as int].name@),
            decreases r.len() - k,
        {
            if str_lt(x.name.as_str(), r[k].name.as_str()) {
                break;
            }
            k = k + 1;
        }
        let ghost r0 = r@;
        proof {
            assert forall|j: int| k <= j < r0.len() implies !lex_lt(#[trigger] r0[j].name@, x.name@) by {
                if lex_lt(r0[j].name@, x.name@) {
                    crate::text::lemma_lex_lt_transitive(r0[j].name@, x.name@, r0[k as int].name@);
                    if j == k {
                        crate::text::lemma_lex_lt_irreflexive(r0[j].name@);
                    }
                }
            }
        }
        proof {
            assert forall|j: int| k <= j < r0.len() implies (#[trigger] r0[j]).name@ != x.name@ by {
                if r0[j].name@ == x.name@ {
                    if j == k {
                        crate::text::lemma_lex_lt_irreflexive(x.name@);
                    } else {
                        assert(!lex_lt(r0[j].name@, r0[k as int].name@));
                    }
                }
            }
            assert forall|key: Seq<char>| #[trigger] r0.insert(k as int, x).filter(named(key))
                == orig.take(n + 1).filter(named(key)) by {
                lemma_insert_keeps_groups(r0, k as int, x, key);
                orig.take(n).lemma_filter_push(x, named(key));
            }
            n = n + 1;
        }
        r.insert(k, x);
        proof {
            assert(r@ == r0.insert(k as int, x));
            assert forall|i: int, j: int| 0 <= i < j < r@.len() implies !lex_lt(#[trigger] r@[j].name@, #[trigger] r@[i].name@) by {
                if j < k {
                    assert(r@[i] == r0[i] && r@[j] == r0[j]);
                } else if j == k {
                    assert(r@[i] == r0[i]);
                } else if i == k {
                    assert(r@[j] == r0[j - 1]);
                } else if i < k {
                    assert(r@[i] == r0[i] && r@[j] == r0[j - 1]);
                    if lex_lt(r0[j - 1].name@, r0[i].name@) {
                    }
                } else {
                    assert(r@[i] == r0[i - 1] && r@[j] == r0[j - 1]);
                }
            }
            assert(r@.to_multiset() == r0.to_multiset().insert(x));
            assert(rest0.to_multiset() == rest@.to_multiset().insert(x));
            assert(r@.to_multiset().add(rest@.to_multiset()) =~= r0.to_multiset().add(rest0.to_multiset()));
        }
    }
    assert(rest@.to_multiset() =~= vstd::multiset::Multiset::empty());
    assert(r@.to_multiset().add(vstd::multiset::Multiset::empty()) =~= r@.to_multiset());
    assert(orig.take(n) =~= orig);
    r
}

/// One JSON object of a plugin listing (keys in the order serde_json writes them).
pub open spec fn json_entry(name: Seq<char>, description: Seq<char>, url_json: Seq<char>) -> Seq<char> {
    "{\"description\":"@ + json_quoted(description) + ",\"name\":"@ + json_quoted(name) + ",\"url\":"@ + url_json + "}"@
}

/// A JSON array of already encoded values.
pub open spec fn json_array(items: Seq<Seq<char>>) -> Seq<char> {
    "["@ + join_sep(items, ","@) + "]"@
}

fn entry_json(name: &str, description: &str, url: Option<&str>) -> (r: String)
    ensures
        r@ == json_entry(name@, description@, url_json(url)),
{
    let mut r = owned("{\"description\":");
    push_str(&mut r, json_string(description).as_str());
    push_str(&mut r, ",\"name\":");
    push_str(&mut r, json_string(name).as_str());
    push_str(&mut r, ",\"url\":");
    match url {
        Some(u) => push_str(&mut r, json_string(u).as_str()),
        None => push_str(&mut r, "null"),
    }
    push_str(&mut r, "}");
    r
}

/// A URL as a JSON value: the quoted string, or `null` for none.
pub open spec fn url_json(url: Option<&str>) -> Seq<char> {
    match url {
        Some(u) => json_quoted(u@),
        None => "null"@,
    }
}

/// The table rows of remote plugins: name, description, URL.
pub open spec fn remote_rows(ps: Seq<RemotePlugin>) -> Seq<(Seq<char>, Seq<char>, Seq<char>)> {
    ps.map_values(|p: RemotePlugin| (p.name@, p.description@, p.url@))
}

/// The text listing of remote plugins.
pub open spec fn remote_text(ps: Seq<RemotePlugin>) -> Seq<char> {
    if ps.len() == 0 {
        "No remote plugins found.\n"@
    } else {
        unlines(table_lines(remote_rows(ps)))
    }
}

/// The JSON listing of remote plugins.
pub open spec fn remote_json(ps: Seq<RemotePlugin>) -> Seq<char> {
    json_array(ps.map_values(|p: RemotePlugin| json_entry(p.name@, p.description@, json_quoted(p.url@))))
}

/// The listing of remote plugins in the given format (the JSON one ends in a newline too).
pub open spec fn remote_output(ps: Seq<RemotePlugin>, format: OutputFormat) -> Seq<char> {
    match format {
        OutputFormat::Json => remote_json(ps) + "\n"@,
        OutputFormat::Text => remote_text(ps),
    }
}

/// The table of remote plugins, or a message when there are none.
pub fn list_remote_text(plugins: &Vec<RemotePlugin>) -> (r: String)
    ensures
        r@ == remote_text(plugins@),
{
    if plugins.len() == 0 {
        return owned("No remote plugins found.\n");
    }
    let mut rows: Vec<(String, String, String)> = Vec::new();
    let mut i: usize = 0;
    while i < plugins.len()
        invariant
            i <= plugins@.len(),
            rows@.len() == i,
            rows_view(rows@) =~= remote_rows(plugins@).take(i as int),
        decreases plugins.len() - i,
    {
        let p = &plugins[i];
        let ghost before = rows@;
        rows.push((p.name.clone(), p.description.clone(), p.url.clone()));
        proof {
            assert forall|j: int| 0 <= j < i implies rows_view(rows@)[j] == rows_view(before)[j] by {
                assert(rows@[j] == before[j]);
            }
            assert(rows_view(rows@)[i as int] == remote_rows(plugins@)[i as int]);
        }
        i = i + 1;
    }
    assert(remote_rows(plugins@).take(plugins@.len() as int) =~= remote_rows(plugins@));
    table_text(&rows)
}

/// The JSON array of remote plugins.
pub fn list_remote_json(plugins: &Vec<RemotePlugin>) -> (r: String)
    ensures
        r@ == remote_json(plugins@),
{
    let ghost objs = plugins@.map_values(|p: RemotePlugin| json_entry(p.name@, p.description@, json_quoted(p.url@)));
    let mut items: Vec<String> = Vec::new();
    let mut i: usize = 0;
    while i < plugins.len()
        invariant
            i <= plugins@.len(),
            objs == plugins@.map_values(|p: RemotePlugin| json_entry(p.name@, p.description@, json_quoted(p.url@))),
            items@.len() == i,
            strs(items@) =~= objs.take(i as int),
        decreases plugins.len() - i,
    {
        let p = &plugins[i];
        let ghost before = items@;
        items.push(entry_json(p.name.as_str(), p.description.as_str(), Some(p.url.as_str())));
        proof {
            assert forall|j: int| 0 <= j < i implies strs(items@)[j] == strs(before)[j] by {
                assert(items@[j] == before[j]);
            }
            assert(strs(items@)[i as int] == objs[i as int]);
        }
        i = i + 1;
    }
    assert(objs.take(plugins@.len() as int) =~= objs);
    let mut r = owned("[");
    push_str(&mut r, join_strings(&items, ",").as_str());
    push_str(&mut r, "]");
    r
}

/// Lists the remote plugins that `fetched` holds, ordered by name (plugins of
/// the same name in the order fetched), or passes on the error of the fetch.
pub fn list_remote_to(format: OutputFormat, fetched: Result<Vec<RemotePlugin>, Failure>) -> (r: Result<String, Failure>)
    ensures
        fetched is Err ==> (r matches Err(e) && e == fetched->Err_0),
        fetched matches Ok(ps) ==> (r matches Ok(t) && exists|s: Seq<RemotePlugin>|
            s.to_multiset() == ps@.to_multiset() && sorted_by_name(s)
            && (forall|key: Seq<char>| #[trigger] s.filter(named(key)) == ps@.filter(named(key)))
            && #[trigger] remote_output(s, format) == t@),
{
    match fetched {
        Err(e) => Err(e),
        Ok(ps) => {
            let sorted = sort_by_name(ps);
            let out = match format {
                OutputFormat::Json => {
                    let mut j = list_remote_json(&sorted);
                    push_str(&mut j, "\n");
                    j
                },
                OutputFormat::Text => list_remote_text(&sorted),
            };
            assert(remote_output(sorted@, format) == out@);
            Ok(out)
        },
    }
}

/// The table rows of configured plugins: name, description, URL or `(local)`.
pub open spec fn local_rows(es: Seq<(String, String, Option<String>)>) -> Seq<(Seq<char>, Seq<char>, Seq<char>)> {
    es.map_values(|e: (String, String, Option<String>)| (e.0@, e.1@, match e.2 {
        Some(u) => u@,
        None => "(local)"@,
    }))
}

/// The JSON objects of configured plugins (a local one has a `null` URL).
pub open spec fn local_objects(es: Seq<(String, String, Option<String>)>) -> Seq<Seq<char>> {
    es.map_values(|e: (String, String, Option<String>)| json_entry(e.0@, e.1@, match e.2 {
        Some(u) => json_quoted(u@),
        None => "null"@,
    }))
}

/// The table of configured plugins.
pub fn list_text(entries: &Vec<(String, String, Option<String>)>) -> (r: String)
    ensures
        r@ == unlines(table_lines(local_rows(entries@))),
{
    let mut rows: Vec<(String, String, String)> = Vec::new();
    let mut i: usize = 0;
    while i < entries.len()
        invariant
            i <= entries@.len(),
            rows@.len() == i,
            rows_view(rows@) =~= local_rows(entries@).take(i as int),
        decreases entries.len() - i,
    {
        let e = &entries[i];
        let url = match &e.2 {
            Some(u) => u.clone(),
            None => owned("(local)"),
        };
        let ghost before = rows@;
        rows.push((e.0.clone(), e.1.clone(), url));
        proof {
            assert forall|j: int| 0 <= j < i implies rows_view(rows@)[j] == rows_view(before)[j] by {
                assert(rows@[j] == before[j]);
            }
            assert(rows_view(rows@)[i as int] == local_rows(entries@)[i as int]);
        }
        i = i + 1;
    }
    assert(local_rows(entries@).take(entries@.len() as int) =~= local_rows(entries@));
    table_text(&rows)
}

/// The JSON array of configured plugins.
pub fn list_json(entries: &Vec<(String, String, Option<String>)>) -> (r: String)
    ensures
        r@ == json_array(local_objects(entries@)),
{
    let mut items: Vec<String> = Vec::new();
    let mut i: usize = 0;
    while i < entries.len()
        invariant
            i <= entries@.len(),
            items@.len() == i,
            strs(items@) =~= local_objects(entries@).take(i as int),
        decreases entries.len() - i,
    {
        let e = &entries[i];
        let url = match &e.2 {
            Some(u) => Some(u.as_str()),
            None => None,
        };
        let ghost before = items@;
        items.push(entry_json(e.0.as_str(), e.1.as_str(), url));
        proof {
            assert forall|j: int| 0 <= j < i implies strs(items@)[j] == strs(before)[j] by {
                assert(items@[j] == before[j]);
            }
            assert(strs(items@)[i as int] == local_objects(entries@)[i as int]);
        }
        i = i + 1;
    }
    assert(local_objects(entries@).take(entries@.len() as int) =~= local_objects(entries@));
    let mut r = owned("[");
    push_str(&mut r, join_strings(&items, ",").as_str());
    push_str(&mut r, "]");
    r
}

/// The listing entries of the configured plugins, in name order: name, the
/// description read from its manifest, and its URL.
pub open spec fn plugin_entries(config: Config, descriptions: Seq<String>) -> Seq<(Seq<char>, Seq<char>, Option<Seq<char>>)> {
    Seq::new(config.plugins@.len(), |i: int| (config.plugins@[i].0, descriptions[i]@, match config.plugins@[i].1.url {
        Some(u) => Some(u@),
        None => None,
    }))
}

/// The entries' characters.
pub open spec fn entries_view(es: Seq<(String, String, Option<String>)>) -> Seq<(Seq<char>, Seq<char>, Option<Seq<char>>)> {
    es.map_values(|e: (String, String, Option<String>)| (e.0@, e.1@, match e.2 {
        Some(u) => Some(u@),
        None => None,
    }))
}

/// Pairs each configured plugin with its description (`descriptions[i]` is
/// that of the `i`-th plugin in name order).
pub fn plugin_list_entries(config: &Config, descriptions: &[String]) -> (r: Vec<(String, String, Option<String>)>)
    requires
        descriptions@.len() == config.plugins@.len(),
    ensures
        entries_view(r@) == plugin_entries(*config, descriptions@),
{
    let mut r: Vec<(String, String, Option<String>)> = Vec::new();
    let mut i: usize = 0;
    let n = config.plugins.len();
    while i < n
        invariant
            n == config.plugins@.len(),
            descriptions@.len() == n,
            i <= n,
            r@.len() == i,
            entries_view(r@) =~= plugin_entries(*config, descriptions@).take(i as int),
        decreases n - i,
    {
        let (name, plugin) = config.plugins.entry(i);
        let url = match &plugin.url {
            Some(u) => Some(u.clone()),
            None => None,
        };
        let ghost before = r@;
        r.push((name.clone(), descriptions[i].clone(), url));
        proof {
            assert forall|j: int| 0 <= j < i implies entries_view(r@)[j] == entries_view(before)[j] by {
                assert(r@[j] == before[j]);
            }
            assert(entries_view(r@)[i as int] == plugin_entries(*config, descriptions@)[i as int]);
        }
        i = i + 1;
    }
    assert(plugin_entries(*config, descriptions@).take(n as int) =~= plugin_entries(*config, descriptions@));
    r
}

/// Lists the configured plugins in the given format.
pub fn list_to(config: &Config, descriptions: &[String], format: OutputFormat) -> (r: String)
    requires
        descriptions@.len() == config.plugins@.len(),
    ensures
        exists|es: Seq<(String, String, Option<String>)>| entries_view(es) == plugin_entries(*config, descriptions@)
            && r@ == #[trigger] local_output(es, format),
{
    let entries = plugin_list_entries(config, descriptions);
    let r = match format {
        OutputFormat::Json => {
            let mut j = list_json(&entries);
            push_str(&mut j, "\n");
            j
        },
        OutputFormat::Text => list_text(&entries),
    };
    assert(r@ == local_output(entries@, format));
    r
}

/// The listing of configured plugins in the given format.
pub open spec fn local_output(es: Seq<(String, String, Option<String>)>, format: OutputFormat) -> Seq<char> {
    match format {
        OutputFormat::Json => json_array(local_objects(es)) + "\n"@,
        OutputFormat::Text => unlines(table_lines(local_rows(es))),
    }
}

/// The message for a plugin that is not in the configuration.
pub open spec fn plugin_not_found(name: Seq<char>) -> Seq<char> {
    "Plugin '"@ + name + "' not found"@
}

/// The error for a plugin that is not in the configuration.
pub fn plugin_not_found_error(plugin: &str) -> (r: Failure)
    ensures
        r matches Failure::Homeos(e) && e.reason == reasons::PLUGIN_NOT_FOUND && e.message@ == plugin_not_found(plugin@),
{
    Failure::Homeos(HomeosError::new(reasons::PLUGIN_NOT_FOUND, message3("Plugin '", plugin, "' not found")))
}

/// Fails with `plugin-not-found` unless the plugin is configured.
pub fn require_plugin(config: &Config, plugin: &str) -> (r: Result<(), Failure>)
    ensures
        r is Ok <==> has_key(config.plugins@, plugin@),
        r matches Err(Failure::Homeos(e)) ==> e.reason == reasons::PLUGIN_NOT_FOUND && e.message@ == plugin_not_found(plugin@),
        r matches Err(e) ==> e is Homeos,
{
    if config.plugins.contains_key(plugin) {
        Ok(())
    } else {
        Err(plugin_not_found_error(plugin))
    }
}

/// The names of a plugin's six possible templates: each script name with `.tmpl`.
pub open spec fn template_file_list() -> Seq<Seq<char>> {
    script_file_list().map_values(|n: Seq<char>| n + ".tmpl"@)
}

/// The file names `action.ext.tmpl` of a plugin's templates, for every action and platform.
pub fn template_file_names() -> (r: Vec<String>)
    ensures
        strs(r@) == template_file_list(),
{
    let names = script_file_names();
    let mut r: Vec<String> = Vec::new();
    let mut i: usize = 0;
    while i < names.len()
        invariant
            strs(names@) == script_file_list(),
            i <= names@.len(),
            r@.len() == i,
            strs(r@) =~= template_file_list().take(i as int),
        decreases names.len() - i,
    {
        let ghost before = r@;
        r.push(message2(names[i].as_str(), ".tmpl"));
        proof {
            assert forall|j: int| 0 <= j < i implies strs(r@)[j] == strs(before)[j] by {
                assert(r@[j] == before[j]);
            }
            assert(strs(names@)[i as int] == names@[i as int]@);
            assert(r@[i as int]@ =~= names@[i as int]@ + ".tmpl"@);
        }
        i = i + 1;
    }
    assert(template_file_list().take(6) =~= template_file_list());
    r
}

/// The lines of `plugin info`: name, description, URL, required parameters and
/// each template with its path or `(not found)`.
pub open spec fn info_lines(plugin: Seq<char>, url: Option<Seq<char>>, manifest: Option<(Seq<char>, Seq<Seq<char>>)>,
    templates: Seq<(Seq<char>, Option<Seq<char>>)>) -> Seq<Seq<char>> {
    let description = match manifest {
        Some(m) => m.0,
        None => Seq::empty(),
    };
    let params = match manifest {
        Some(m) => m.1,
        None => Seq::empty(),
    };
    seq![
        "Plugin: "@ + plugin,
        "Description: "@ + description,
        "URL: "@ + match url {
            Some(u) => u,
            None => "(local)"@,
        },
        "Parameters:"@,
    ] + (if params.len() == 0 {
        seq!["  (none)"@]
    } else {
        params.map_values(|p: Seq<char>| "  "@ + p)
    }) + seq!["Templates:"@] + templates.map_values(|t: (Seq<char>, Option<Seq<char>>)| "  "@ + t.0 + match t.1 {
        Some(path) => " ("@ + path + ")"@,
        None => " (not found)"@,
    })
}

/// A plugin's URL, if it has one.
pub open spec fn url_view(pc: PluginConfig) -> Option<Seq<char>> {
    match pc.url {
        Some(u) => Some(u@),
        None => None,
    }
}

/// The manifest's description and parameters.
pub open spec fn manifest_view(m: Option<PluginManifest>) -> Option<(Seq<char>, Seq<Seq<char>>)> {
    match m {
        Some(m) => Some((m.description@, strs(m.params@))),
        None => None,
    }
}

/// A template's line in `plugin info`.
pub open spec fn template_line(t: (Seq<char>, Option<Seq<char>>)) -> Seq<char> {
    "  "@ + t.0 + match t.1 {
        Some(path) => " ("@ + path + ")"@,
        None => " (not found)"@,
    }
}

fn push_template_lines(out: &mut String, templates: &Vec<(String, Option<String>)>)
    ensures
        final(out)@ == old(out)@ + unlines(crate::registry::sections_view(templates@).map_values(
            |t: (Seq<char>, Option<Seq<char>>)| template_line(t))),
{
    let ghost start = out@;
    let ghost ls = crate::registry::sections_view(templates@).map_values(|t: (Seq<char>, Option<Seq<char>>)| template_line(t));
    let mut i: usize = 0;
    while i < templates.len()
        invariant
            i <= templates@.len(),
            ls == crate::registry::sections_view(templates@).map_values(|t: (Seq<char>, Option<Seq<char>>)| template_line(t)),
            out@ == start + unlines(ls.take(i as int)),
        decreases templates.len() - i,
    {
        let (name, path) = &templates[i];
        push_str(out, "  ");
        push_str(out, name.as_str());
        match path {
            Some(p) => {
                push_str(out, " (");
                push_str(out, p.as_str());
                push_line(out, ")");
            },
            None => push_line(out, " (not found)"),
        }
        proof {
            assert(ls.take(i + 1).drop_last() =~= ls.take(i as int));
            assert(ls[i as int] == template_line(crate::registry::sections_view(templates@)[i as int]));
        }
        i = i + 1;
    }
    assert(ls.take(templates@.len() as int) =~= ls);
}

/// The path of each template file (in the order of `template_file_list`) where it exists.
pub open spec fn found_view(found: Seq<Option<String>>) -> Seq<Option<Seq<char>>> {
    found.map_values(|f: Option<String>| match f {
        Some(p) => Some(p@),
        None => None,
    })
}

/// The output of `plugin info` for a configured plugin, with the six
/// template lines named by `template_file_list`: `found[i]` is the path of the
/// `i`-th template when the file exists.
pub fn plugin_info(config: &Config, plugin: &str, manifest: Option<PluginManifest>, found: &Vec<Option<String>>)
    -> (r: Result<String, Failure>)
    requires
        found@.len() == template_file_list().len(),
    ensures
        r is Ok <==> has_key(config.plugins@, plugin@),
        r matches Err(e) ==> (e matches Failure::Homeos(h) && h.reason == reasons::PLUGIN_NOT_FOUND
            && h.message@ == plugin_not_found(plugin@)),
        r matches Ok(t) ==> t@ == unlines(info_lines(plugin@, url_view(lookup(config.plugins@, plugin@)->0),
            manifest_view(manifest), Seq::new(template_file_list().len(), |i: int| (template_file_list()[i], found_view(found@)[i])))),
{
    let names = template_file_names();
    let mut templates: Vec<(String, Option<String>)> = Vec::new();
    let mut i: usize = 0;
    while i < names.len()
        invariant
            strs(names@) == template_file_list(),
            found@.len() == names@.len(),
            i <= names@.len(),
            crate::registry::sections_view(templates@)
                =~= Seq::new(i as nat, |k: int| (template_file_list()[k], found_view(found@)[k])),
        decreases names.len() - i,
    {
        let ghost before = crate::registry::sections_view(templates@);
        templates.push((names[i].clone(), found[i].clone()));
        proof {
            assert(strs(names@)[i as int] == names@[i as int]@);
            assert(crate::registry::sections_view(templates@) =~= before.push((template_file_list()[i as int], found_view(found@)[i as int])));
        }
        i = i + 1;
    }
    info_to(config, plugin, manifest, &templates)
}

/// The output of `plugin info` for a configured plugin; `manifest` is its
/// `plugin.yml` when that could be read, `templates` each template's name with
/// its path when the file exists.
pub fn info_to(config: &Config, plugin: &str, manifest: Option<PluginManifest>,
    templates: &Vec<(String, Option<String>)>) -> (r: Result<String, Failure>)
    ensures
        r is Ok <==> has_key(config.plugins@, plugin@),
        r matches Err(e) ==> (e matches Failure::Homeos(h) && h.reason == reasons::PLUGIN_NOT_FOUND
            && h.message@ == plugin_not_found(plugin@)),
        r matches Ok(t) ==> t@ == unlines(info_lines(plugin@, url_view(lookup(config.plugins@, plugin@)->0),
            manifest_view(manifest), crate::registry::sections_view(templates@))),
{
    let pc = match config.plugins.get(plugin) {
        Some(pc) => pc,
        None => return Err(plugin_not_found_error(plugin)),
    };
    let ghost url = url_view(*pc);
    let ghost mv = manifest_view(manifest);
    let ghost tv = crate::registry::sections_view(templates@);
    let (description, params) = match manifest {
        Some(m) => (m.description, m.params),
        None => (String::new(), Vec::new()),
    };
    let mut out = String::new();
    push_line(&mut out, message2("Plugin: ", plugin).as_str());
    push_line(&mut out, message2("Description: ", description.as_str()).as_str());
    match &pc.url {
        Some(u) => push_line(&mut out, message2("URL: ", u.as_str()).as_str()),
        None => push_line(&mut out, message2("URL: ", "(local)").as_str()),
    }
    push_line(&mut out, "Parameters:");
    let ghost head = seq![
        "Plugin: "@ + plugin@,
        "Description: "@ + description@,
        "URL: "@ + match url {
            Some(u) => u,
            None => "(local)"@,
        },
        "Parameters:"@,
    ];
    proof {
        assert(head.take(1).drop_last() =~= head.take(0));
        assert(head.take(2).drop_last() =~= head.take(1));
        assert(head.take(3).drop_last() =~= head.take(2));
        assert(head.take(4).drop_last() =~= head.take(3));
        assert(head.take(4) =~= head);
        assert(unlines(head.take(0)) =~= Seq::<char>::empty());
        assert(unlines(head.take(1)) =~= head[0] + "\n"@);
        assert(unlines(head.take(2)) =~= head[0] + "\n"@ + head[1] + "\n"@);
        assert(unlines(head.take(3)) =~= head[0] + "\n"@ + head[1] + "\n"@ + head[2] + "\n"@);
        assert(unlines(head.take(4)) =~= head[0] + "\n"@ + head[1] + "\n"@ + head[2] + "\n"@ + head[3] + "\n"@);
        assert(out@ =~= unlines(head));
    }
    let ghost pl = if params@.len() == 0 {
        seq!["  (none)"@]
    } else {
        strs(params@).map_values(|p: Seq<char>| "  "@ + p)
    };
    let ghost before_params = out@;
    if params.len() == 0 {
        push_line(&mut out, "  (none)");
        proof {
            assert(pl.drop_last() =~= Seq::<Seq<char>>::empty());
            assert(unlines(pl) =~= unlines(Seq::<Seq<char>>::empty()) + pl[0] + "\n"@);
        }
    } else {
        crate::registry::push_indented(&mut out, &params);
    }
    push_line(&mut out, "Templates:");
    let ghost th = seq!["Templates:"@];
    proof {
        assert(th.drop_last() =~= Seq::<Seq<char>>::empty());
        assert(unlines(th) =~= unlines(Seq::<Seq<char>>::empty()) + th[0] + "\n"@);
    }
    push_template_lines(&mut out, templates);
    proof {
        let tl = tv.map_values(|t: (Seq<char>, Option<Seq<char>>)| template_line(t));
        crate::registry::lemma_unlines_append(head, pl);
        crate::registry::lemma_unlines_append(head + pl, th);
        crate::registry::lemma_unlines_append(head + pl + th, tl);
        assert(mv == (match manifest {
            Some(m) => Some((m.description@, strs(m.params@))),
            None => None,
        }));
        assert(info_lines(plugin@, url, mv, tv) =~= head + pl + th + tl);
    }
    Ok(out)
}

/// The template sections of `plugin cat`: each template that exists, after a blank line.
pub open spec fn found_sections(ts: Seq<(Seq<char>, Option<Seq<char>>)>) -> Seq<char>
    decreases ts.len(),
{
    if ts.len() == 0 {
        Seq::empty()
    } else {
        found_sections(ts.drop_last()) + match ts.last().1 {
            Some(c) => "\n"@ + section_text(ts.last().0, Some(c)),
            None => Seq::empty(),
        }
    }
}

/// The output of `plugin cat`: the manifest's section (or `(not found)`),
/// then the section of every template that exists.
pub fn plugin_cat_text(manifest: Option<String>, templates: &Vec<(String, Option<String>)>) -> (r: String)
    ensures
        r@ == section_text("plugin.yml"@, match manifest {
            Some(m) => Some(m@),
            None => None,
        }) + found_sections(crate::registry::sections_view(templates@)),
{
    let ghost tv = crate::registry::sections_view(templates@);
    let mut out = owned("=== ");
    push_str(&mut out, "plugin.yml");
    push_str(&mut out, " ===\n");
    match &manifest {
        Some(m) => push_str(&mut out, m.as_str()),
        None => push_str(&mut out, "(not found)\n"),
    }
    let ghost head = out@;
    let mut i: usize = 0;
    while i < templates.len()
        invariant
            tv == crate::registry::sections_view(templates@),
            i <= templates@.len(),
            out@ == head + found_sections(tv.take(i as int)),
        decreases templates.len() - i,
    {
        let (name, content) = &templates[i];
        match content {
            Some(c) => {
                push_str(&mut out, "\n");
                push_str(&mut out, "=== ");
                push_str(&mut out, name.as_str());
                push_str(&mut out, " ===\n");
                push_str(&mut out, c.as_str());
            },
            None => {},
        }
        proof {
            assert(tv.take(i + 1).drop_last() =~= tv.take(i as int));
            assert(tv.take(i + 1).last() == tv[i as int]);
        }
        i = i + 1;
    }
    assert(tv.take(templates@.len() as int) =~= tv);
    out
}

/// The directory `plugin cd` enters: the plugins directory, or that of the
/// given plugin, which must be configured.
pub fn resolve_cd_target(config: &Config, ctx: &Context, plugin: Option<&str>) -> (r: Result<String, Failure>)
    ensures
        plugin is None ==> (r matches Ok(d) && d@ == path_join(ctx.dir(), "plugins"@, ctx.sep())),
        plugin matches Some(p) ==> (r is Ok <==> has_key(config.plugins@, p@)),
        plugin matches Some(p) ==> (r matches Ok(d) && d@ == path_join(path_join(ctx.dir(), "plugins"@, ctx.sep()), p@, ctx.sep()))
            || (r matches Err(Failure::Homeos(e)) && e.reason == reasons::PLUGIN_NOT_FOUND && e.message@ == plugin_not_found(p@)),
{
    match plugin {
        Some(p) => {
            require_plugin(config, p)?;
            Ok(crate::context::join_path(ctx.plugins_dir().as_str(), p, ctx.separator()))
        },
        None => Ok(ctx.plugins_dir()),
    }
}

/// The directory to enter, if it exists; `plugin cd` fails with `directory-not-found` otherwise.
pub fn require_plugin_dir(dir: String, exists: bool) -> (r: Result<String, Failure>)
    ensures
        exists ==> (r matches Ok(d) && d@ == dir@),
        !exists ==> (r matches Err(Failure::Homeos(e)) && e.reason == reasons::DIRECTORY_NOT_FOUND
            && e.message@ == crate::registry::directory_missing(dir@)),
{
    if exists {
        Ok(dir)
    } else {
        Err(Failure::Homeos(HomeosError::new(reasons::DIRECTORY_NOT_FOUND, message2("Directory not found at ", dir.as_str()))))
    }
}

/// The refusal of `plugin add`, if any: the plugin is already configured, or
/// its directory already exists.
pub open spec fn add_refusal(config: Config, plugin: Seq<char>, target_exists: bool) -> Option<Seq<char>> {
    if has_key(config.plugins@, plugin) {
        Some("Plugin '"@ + plugin + "' already exists"@)
    } else if target_exists {
        Some("Plugin directory '"@ + plugin + "' already exists"@)
    } else {
        None
    }
}

/// Checks that `plugin` can be added: not configured yet, and no directory in the way.
pub fn check_plugin_addable(config: &Config, plugin: &str, target_exists: bool) -> (r: Result<(), Failure>)
    ensures
        r is Ok <==> add_refusal(*config, plugin@, target_exists) is None,
        r matches Err(e) ==> (e matches Failure::Homeos(h) && h.reason == reasons::ALREADY_EXISTS
            && Some(h.message@) == add_refusal(*config, plugin@, target_exists)),
{
    if config.plugins.contains_key(plugin) {
        return Err(Failure::Homeos(HomeosError::new(reasons::ALREADY_EXISTS, message3("Plugin '", plugin, "' already exists"))));
    }
    if target_exists {
        return Err(Failure::Homeos(HomeosError::new(reasons::ALREADY_EXISTS, message3("Plugin directory '", plugin, "' already exists"))));
    }
    Ok(())
}

/// The repository a plugin is cloned from: the given URL, else the official
/// `homeos-plugin-<name>` repository.
pub open spec fn plugin_source(plugin: Seq<char>, url: Option<Seq<char>>) -> Seq<char> {
    match url {
        Some(u) => u,
        None => "https://github.com/hainet50b/homeos-plugin-"@ + plugin,
    }
}

/// The URL `plugin add` clones.
pub fn plugin_url(plugin: &str, url: Option<&str>) -> (r: String)
    ensures
        r@ == plugin_source(plugin@, match url {
            Some(u) => Some(u@),
            None => None,
        }),
{
    match url {
        Some(u) => owned(u),
        None => message2("https://github.com/hainet50b/homeos-plugin-", plugin),
    }
}

/// What probing GitHub for a plugin's repository found.
pub enum RepoProbe {
    Found,
    Missing,
    Failed(String),
}

/// The outcome of the repository check of `plugin add`: a missing repository
/// and a failed request are errors.
pub fn repo_check(plugin: &str, probe: RepoProbe) -> (r: Result<(), Failure>)
    ensures
        probe is Found <==> r is Ok,
        probe is Missing ==> (r matches Err(Failure::Homeos(e)) && e.reason == reasons::NOT_FOUND_ON_GITHUB
            && e.message@ == "Plugin '"@ + plugin@ + "' not found on GitHub (homeos-plugin-"@ + plugin@ + ")"@),
        probe matches RepoProbe::Failed(m) ==> (r matches Err(Failure::Homeos(e)) && e.reason == reasons::NETWORK_ERROR
            && e.message@ == m@),
{
    match probe {
        RepoProbe::Found => Ok(()),
        RepoProbe::Missing => {
            let mut m = message3("Plugin '", plugin, "' not found on GitHub (homeos-plugin-");
            push_str(&mut m, plugin);
            push_str(&mut m, ")");
            Err(Failure::Homeos(HomeosError::new(reasons::NOT_FOUND_ON_GITHUB, m)))
        },
        RepoProbe::Failed(m) => Err(Failure::Homeos(HomeosError::new(reasons::NETWORK_ERROR, m))),
    }
}

/// The files a new local plugin starts with: its manifest, then a template
/// per action and platform, each with its content.
pub open spec fn local_plugin_file_list() -> Seq<(Seq<char>, Seq<char>)> {
    seq![("plugin.yml"@, "description: Brief description of what this plugin does.\nparams: []\n"@)]
        + skeleton_pairs().map_values(|p: (Seq<char>, Seq<char>)| (p.0 + "."@ + p.1 + ".tmpl"@,
            "# Generated by homeos. Edit this template for "@ + p.0 + " action.\n"@))
}

/// The (action, extension) pairs of scripts and templates.
pub open spec fn skeleton_pairs() -> Seq<(Seq<char>, Seq<char>)> {
    crate::registry::skeleton_list()
}

/// File names and contents.
pub open spec fn files_view(v: Seq<(String, String)>) -> Seq<(Seq<char>, Seq<char>)> {
    v.map_values(|f: (String, String)| (f.0@, f.1@))
}

/// The files `plugin add --local` writes, with their contents.
pub fn local_plugin_files() -> (r: Vec<(String, String)>)
    ensures
        files_view(r@) == local_plugin_file_list(),
{
    let ghost want = local_plugin_file_list();
    let mut r: Vec<(String, String)> = Vec::new();
    r.push((owned("plugin.yml"), owned("description: Brief description of what this plugin does.\nparams: []\n")));
    let pairs = crate::registry::skeleton_scripts();
    let ghost pv = pairs@.map_values(|p: (&'static str, &'static str)| (p.0@, p.1@));
    assert(files_view(r@) =~= want.take(1));
    let mut i: usize = 0;
    while i < pairs.len()
        invariant
            want == local_plugin_file_list(),
            pv == pairs@.map_values(|p: (&'static str, &'static str)| (p.0@, p.1@)),
            pv == crate::registry::skeleton_list(),
            i <= pairs@.len(),
            r@.len() == i + 1,
            files_view(r@) =~= want.take(i + 1),
        decreases pairs.len() - i,
    {
        let (a, e) = pairs[i];
        let mut name = message3(a, ".", e);
        push_str(&mut name, ".tmpl");
        let mut content = message3("# Generated by homeos. Edit this template for ", a, " action.\n");
        let ghost before = r@;
        r.push((name, content));
        proof {
            assert forall|j: int| 0 <= j < i + 1 implies #[trigger] files_view(r@)[j]
                == files_view(before)[j] by {
                assert(r@[j] == before[j]);
            }
            assert(pv[i as int] == (a@, e@));
            assert(want[i + 1] == (a@ + "."@ + e@ + ".tmpl"@, "# Generated by homeos. Edit this template for "@ + a@ + " action.\n"@));
        }
        i = i + 1;
    }
    assert(want.take(7) =~= want);
    r
}

/// Registers `plugin` in the configuration with its URL (`None` for a local one).
pub fn register_plugin(config: &mut Config, plugin: &str, url: Option<String>)
    ensures
        forall|x: Seq<char>| #[trigger] lookup(final(config).plugins@, x)
            == (if x == plugin@ { Some(PluginConfig { url }) } else { lookup(old(config).plugins@, x) }),
        forall|x: Seq<char>| #[trigger] has_key(final(config).plugins@, x) == (x == plugin@ || has_key(old(config).plugins@, x)),
        final(config).packages@ == old(config).packages@,
{
    config.plugins.insert(owned(plugin), PluginConfig { url });
}

/// The error when a cloned repository has no `plugin.yml`.
pub fn invalid_plugin_error() -> (r: Failure)
    ensures
        r matches Failure::Homeos(e) && e.reason == reasons::NOT_A_VALID_HOMEOS_PLUGIN
            && e.message@ == "Not a valid homeos plugin. Cloned directory removed."@,
{
    Failure::Homeos(HomeosError::new(reasons::NOT_A_VALID_HOMEOS_PLUGIN, owned("Not a valid homeos plugin. Cloned directory removed.")))
}

/// What `plugin add` reports: created locally, or added from a repository.
pub fn plugin_added_message(plugin: &str, local: bool) -> (r: String)
    ensures
        local ==> r@ == "Plugin '"@ + plugin@ + "' created locally"@,
        !local ==> r@ == "Plugin '"@ + plugin@ + "' added successfully"@,
{
    if local {
        message3("Plugin '", plugin, "' created locally")
    } else {
        message3("Plugin '", plugin, "' added successfully")
    }
}

/// The configured packages built from `plugin`, in name order.
pub open spec fn referencing(config: Config, plugin: Seq<char>) -> Seq<Seq<char>> {
    keys_of(config.packages@).filter(|n: Seq<char>| match lookup(config.packages@, n) {
        Some(p) => p.plugin matches Some(x) && x@ == plugin,
        None => false,
    })
}

/// The names of the packages that use `plugin`.
pub fn packages_using(config: &Config, plugin: &str) -> (r: Vec<String>)
    ensures
        strs(r@) == referencing(*config, plugin@),
{
    let ghost keys = keys_of(config.packages@);
    let ghost f = |n: Seq<char>| match lookup(config.packages@, n) {
        Some(p) => p.plugin matches Some(x) && x@ == plugin@,
        None => false,
    };
    let n = config.packages.len();
    let mut r: Vec<String> = Vec::new();
    let mut i: usize = 0;
    while i < n
        invariant
            n == config.packages@.len(),
            keys == keys_of(config.packages@),
            f == (|n: Seq<char>| match lookup(config.packages@, n) {
                Some(p) => p.plugin matches Some(x) && x@ == plugin@,
                None => false,
            }),
            crate::strmap::sorted_keys(config.packages@),
            i <= n,
            strs(r@) == keys.take(i as int).filter(f),
        decreases n - i,
    {
        let (name, pkg) = config.packages.entry(i);
        proof {
            assert(keys.take(i + 1).drop_last() =~= keys.take(i as int));
            assert(keys.take(i + 1).last() == name@);
            reveal(Seq::filter);
            crate::strmap::lemma_lookup_at(config.packages@, i as int);
        }
        let uses = match &pkg.plugin {
            Some(x) => crate::text::str_eq(x.as_str(), plugin),
            None => false,
        };
        if uses {
            r.push(name.clone());
            assert(strs(r@) =~= keys.take(i + 1).filter(f));
        } else {
            assert(strs(r@) =~= keys.take(i + 1).filter(f));
        }
        i = i + 1;
    }
    assert(keys.take(n as int) =~= keys);
    r
}

/// The lines `plugin remove` shows before asking: a warning naming the packages
/// that use the plugin, the plugin, and the directory `--purge` deletes.
pub open spec fn plugin_remove_lines(plugin: Seq<char>, users: Seq<Seq<char>>, purge_dir: Option<Seq<char>>) -> Seq<Seq<char>> {
    (if users.len() > 0 {
        seq!["Warning: the following packages reference plugin '"@ + plugin + "': "@ + join_sep(users, ", "@)]
    } else {
        Seq::empty()
    }) + seq!["The following plugins will be removed from homeos.yml:"@, "  "@ + plugin] + match purge_dir {
        Some(d) => seq!["\nThe following directories will be deleted:"@, "  "@ + d],
        None => Seq::empty(),
    }
}

/// The text `plugin remove` shows before asking for confirmation; `purge_dir`
/// is the plugin's directory when `--purge` is given and it exists.
pub fn plugin_remove_preview(config: &Config, plugin: &str, purge_dir: Option<&str>) -> (r: Result<String, Failure>)
    ensures
        r is Ok <==> has_key(config.plugins@, plugin@),
        r matches Err(e) ==> (e matches Failure::Homeos(h) && h.reason == reasons::PLUGIN_NOT_FOUND
            && h.message@ == plugin_not_found(plugin@)),
        r matches Ok(t) ==> t@ == unlines(plugin_remove_lines(plugin@, referencing(*config, plugin@), match purge_dir {
            Some(d) => Some(d@),
            None => None,
        })),
{
    require_plugin(config, plugin)?;
    let users = packages_using(config, plugin);
    let mut lines: Vec<String> = Vec::new();
    if users.len() > 0 {
        let mut w = message3("Warning: the following packages reference plugin '", plugin, "': ");
        push_str(&mut w, join_strings(&users, ", ").as_str());
        lines.push(w);
    }
    lines.push(owned("The following plugins will be removed from homeos.yml:"));
    lines.push(message2("  ", plugin));
    match purge_dir {
        Some(d) => {
            lines.push(owned("\nThe following directories will be deleted:"));
            lines.push(message2("  ", d));
        },
        None => {},
    }
    let ghost want = plugin_remove_lines(plugin@, referencing(*config, plugin@), match purge_dir {
        Some(d) => Some(d@),
        None => None,
    });
    assert(strs(lines@) =~= want);
    let mut out = String::new();
    crate::plugins::push_all_lines(&mut out, &lines);
    Ok(out)
}

/// Appends each line followed by a newline.
pub fn push_all_lines(out: &mut String, lines: &Vec<String>)
    ensures
        final(out)@ == old(out)@ + unlines(strs(lines@)),
{
    let ghost start = out@;
    let mut i: usize = 0;
    while i < lines.len()
        invariant
            i <= lines@.len(),
            out@ == start + unlines(strs(lines@).take(i as int)),
        decreases lines.len() - i,
    {
        push_line(out, lines[i].as_str());
        proof {
            assert(strs(lines@).take(i + 1).drop_last() =~= strs(lines@).take(i as int));
        }
        i = i + 1;
    }
    assert(strs(lines@).take(lines@.len() as int) =~= strs(lines@));
}

/// What `plugin remove` reports once the plugin is removed.
pub fn plugin_removed_message(plugin: &str, dir_removed: bool) -> (r: String)
    ensures
        dir_removed ==> r@ == "Removed plugin '"@ + plugin@ + "' and removed directory"@,
        !dir_removed ==> r@ == "Removed plugin '"@ + plugin@ + "'"@,
{
    if dir_removed {
        message3("Removed plugin '", plugin, "' and removed directory")
    } else {
        message3("Removed plugin '", plugin, "'")
    }
}

/// What `plugin add` goes on to do once its checks pass: clone `url` (none
/// for a local plugin, which is created in place), after first making sure
/// the official repository exists when `check_repo` is set.
pub struct AddPlan {
    pub url: Option<String>,
    pub check_repo: bool,
}

/// Decides `plugin add`: refuses a plugin that is already configured or whose
/// directory exists; otherwise a local plugin is created in place, and a
/// remote one is cloned from the given URL or, when none is given, from the
/// official repository, whose existence is checked first.
pub fn add(config: &Config, plugin: &str, url: Option<&str>, local: bool, target_exists: bool) -> (r: Result<AddPlan, Failure>)
    ensures
        r is Ok <==> add_refusal(*config, plugin@, target_exists) is None,
        r matches Err(e) ==> (e matches Failure::Homeos(h) && h.reason == reasons::ALREADY_EXISTS
            && Some(h.message@) == add_refusal(*config, plugin@, target_exists)),
        r matches Ok(p) ==> {
            &&& local ==> p.url is None && !p.check_repo
            &&& !local ==> (p.url matches Some(u) && u@ == plugin_source(plugin@, match url {
                Some(x) => Some(x@),
                None => None,
            }))
            &&& !local ==> p.check_repo == url is None
        },
{
    check_plugin_addable(config, plugin, target_exists)?;
    if local {
        Ok(AddPlan { url: None, check_repo: false })
    } else {
        Ok(AddPlan { url: Some(plugin_url(plugin, url)), check_repo: url.is_none() })
    }
}

/// A plugin's description for listings: that of its manifest, or empty when
/// the manifest is missing or could not be read.
pub fn load_plugin_description(manifest: Option<PluginManifest>) -> (r: String)
    ensures
        manifest matches Some(m) ==> r@ == m.description@,
        manifest is None ==> r@.len() == 0,
{
    match manifest {
        Some(m) => m.description,
        None => String::new(),
    }
}

} // verus!
