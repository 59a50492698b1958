//! Refreshing plugins from their upstream repositories: which plugins, what
//! changed, and what is reported.
use vstd::prelude::*;
use crate::config::Config;
use crate::error::{Failure, HomeosError, json_quoted, json_string, reasons};
use crate::output::OutputFormat;
use crate::plugins::{json_array, plugin_not_found_error, plugin_not_found};
use crate::registry::{message2, message3};
use crate::strmap::{has_key, keys_of, lookup};
use crate::text::{join_sep, join_strings, owned, push_line, push_str, strs, unlines};

verus! {

/// The files that differ between a plugin's current and upstream copies, by
/// relative path.
pub struct DiffSummary {
    pub modified: Vec<String>,
    pub added: Vec<String>,
    pub removed: Vec<String>,
}

impl DiffSummary {
    /// Whether nothing differs.
    pub fn is_empty(&self) -> (b: bool)
        ensures
            b == (self.modified@.len() == 0 && self.added@.len() == 0 && self.removed@.len() == 0),
    {
        self.modified.len() == 0 && self.added.len() == 0 && self.removed.len() == 0
    }
}

/// One file of either copy: its path, its bytes in the current copy and in the
/// upstream copy (`None` where the copy lacks it).
pub type FileVersions = (String, Option<Vec<u8>>, Option<Vec<u8>>);

/// The paths of the entries whose versions satisfy `f`, in order.
pub open spec fn paths_where(files: Seq<FileVersions>, f: spec_fn(Option<Seq<u8>>, Option<Seq<u8>>) -> bool) -> Seq<Seq<char>>
    decreases files.len(),
{
    if files.len() == 0 {
        Seq::empty()
    } else {
        let e = files.last();
        let rest = paths_where(files.drop_last(), f);
        if f(bytes_view(e.1), bytes_view(e.2)) {
            rest.push(e.0@)
        } else {
            rest
        }
    }
}

/// The bytes of a version, if present.
pub open spec fn bytes_view(v: Option<Vec<u8>>) -> Option<Seq<u8>> {
    match v {
        Some(b) => Some(b@),
        None => None,
    }
}

/// Present in both copies with different contents.
pub open spec fn is_modified() -> spec_fn(Option<Seq<u8>>, Option<Seq<u8>>) -> bool {
    |o: Option<Seq<u8>>, n: Option<Seq<u8>>| o is Some && n is Some && o->0 != n->0
}

/// Present upstream only.
pub open spec fn is_added() -> spec_fn(Option<Seq<u8>>, Option<Seq<u8>>) -> bool {
    |o: Option<Seq<u8>>, n: Option<Seq<u8>>| o is None && n is Some
}

/// Present in the current copy only.
pub open spec fn is_removed() -> spec_fn(Option<Seq<u8>>, Option<Seq<u8>>) -> bool {
    |o: Option<Seq<u8>>, n: Option<Seq<u8>>| o is Some && n is None
}

fn bytes_equal(a: &Vec<u8>, b: &Vec<u8>) -> (r: bool)
    ensures
        r == (a@ == b@),
{
    if a.len() != b.len() {
        return false;
    }
    let mut i: usize = 0;
    while i < a.len()
        invariant
            a@.len() == b@.len(),
            i <= a@.len(),
            forall|j: int| 0 <= j < i ==> a@[j] == b@[j],
        decreases a.len() - i,
    {
        if a[i] != b[i] {
            return false;
        }
        i = i + 1;
    }
    assert(a@ =~= b@);
    true
}

/// Classifies every file of either copy (each path listed once, in the order
/// the summary lists them) as modified, added upstream or removed upstream.
pub fn compute_diff(files: &Vec<FileVersions>) -> (d: DiffSummary)
    ensures
        strs(d.modified@) == paths_where(files@, is_modified()),
        strs(d.added@) == paths_where(files@, is_added()),
        strs(d.removed@) == paths_where(files@, is_removed()),
{
    let mut d = DiffSummary { modified: Vec::new(), added: Vec::new(), removed: Vec::new() };
    let mut i: usize = 0;
    while i < files.len()
        invariant
            i <= files@.len(),
            strs(d.modified@) == paths_where(files@.take(i as int), is_modified()),
            strs(d.added@) == paths_where(files@.take(i as int), is_added()),
            strs(d.removed@) == paths_where(files@.take(i as int), is_removed()),
        decreases files.len() - i,
    {
        let (path, old, new) = &files[i];
        proof {
            assert(files@.take(i + 1).drop_last() =~= files@.take(i as int));
            assert(files@.take(i + 1).last() == files@[i as int]);
        }
        let ghost m0 = strs(d.modified@);
        let ghost a0 = strs(d.added@);
        let ghost r0 = strs(d.removed@);
        match (old, new) {
            (None, Some(_)) => {
                d.added.push(path.clone());
                assert(strs(d.added@) =~= a0.push(path@));
            },
            (Some(_), None) => {
                d.removed.push(path.clone());
                assert(strs(d.removed@) =~= r0.push(path@));
            },
            (Some(o), Some(n)) => {
                if !bytes_equal(o, n) {
                    d.modified.push(path.clone());
                    assert(strs(d.modified@) =~= m0.push(path@));
                }
            },
            (None, None) => {},
        }
        i = i + 1;
    }
    assert(files@.take(files@.len() as int) =~= files@);
    d
}

/// The plugins to refresh: every configured one with `--all`, else the named
/// one; each with its URL (`None` for a local plugin).
pub open spec fn refresh_selection(config: Config, plugin: Option<Seq<char>>, all: bool) -> Option<Seq<(Seq<char>, Option<Seq<char>>)>> {
    if all {
        Some(config.plugins@.map_values(|e: (Seq<char>, crate::config::PluginConfig)| (e.0, crate::plugins::url_view(e.1))))
    } else {
        match plugin {
            Some(p) => if has_key(config.plugins@, p) {
                Some(seq![(p, crate::plugins::url_view(lookup(config.plugins@, p)->0))])
            } else {
                None
            },
            None => None,
        }
    }
}

/// The plugins and URLs.
pub open spec fn targets_view(v: Seq<(String, Option<String>)>) -> Seq<(Seq<char>, Option<Seq<char>>)> {
    v.map_values(|t: (String, Option<String>)| (t.0@, match t.1 {
        Some(u) => Some(u@),
        None => None,
    }))
}

/// Checks the request of `plugin refresh` before anything is read: it needs a
/// plugin name or `--all`.
pub fn check_refresh_request(plugin: Option<&str>, all: bool) -> (r: Result<(), Failure>)
    ensures
        r is Ok <==> (plugin is Some || all),
        r is Err ==> (r matches Err(Failure::Homeos(e)) && e.reason == reasons::VALIDATION_ERROR
            && e.message@ == "specify a plugin name or use --all"@),
{
    if plugin.is_none() && !all {
        Err(Failure::Homeos(HomeosError::new(reasons::VALIDATION_ERROR, owned("specify a plugin name or use --all"))))
    } else {
        Ok(())
    }
}

/// Selects the plugins `plugin refresh` works on. Without a name and without
/// `--all` the request is invalid; a name must be that of a configured plugin.
pub fn refresh_targets(config: &Config, plugin: Option<&str>, all: bool) -> (r: Result<Vec<(String, Option<String>)>, Failure>)
    ensures
        plugin is None && !all ==> (r matches Err(Failure::Homeos(e)) && e.reason == reasons::VALIDATION_ERROR
            && e.message@ == "specify a plugin name or use --all"@),
        !all && plugin is Some && !has_key(config.plugins@, plugin->0@) ==> (r matches Err(Failure::Homeos(e))
            && e.reason == reasons::PLUGIN_NOT_FOUND && e.message@ == plugin_not_found(plugin->0@)),
        r matches Ok(ts) ==> Some(targets_view(ts@)) == refresh_selection(*config, match plugin {
            Some(p) => Some(p@),
            None => None,
        }, all),
        (all || (plugin is Some && has_key(config.plugins@, plugin->0@))) ==> r is Ok,
{
    if plugin.is_none() && !all {
        return Err(Failure::Homeos(HomeosError::new(reasons::VALIDATION_ERROR, owned("specify a plugin name or use --all"))));
    }
    let mut ts: Vec<(String, Option<String>)> = Vec::new();
    if all {
        let n = config.plugins.len();
        let ghost want = config.plugins@.map_values(|e: (Seq<char>, crate::config::PluginConfig)| (e.0, crate::plugins::url_view(e.1)));
        let mut i: usize = 0;
        while i < n
            invariant
                n == config.plugins@.len(),
                want == config.plugins@.map_values(|e: (Seq<char>, crate::config::PluginConfig)| (e.0, crate::plugins::url_view(e.1))),
                i <= n,
                ts@.len() == i,
                targets_view(ts@) =~= want.take(i as int),
            decreases n - i,
        {
            let (name, pc) = config.plugins.entry(i);
            let url = match &pc.url {
                Some(u) => Some(u.clone()),
                None => None,
            };
            let ghost before = ts@;
            ts.push((name.clone(), url));
            proof {
                assert forall|j: int| 0 <= j < i implies #[trigger] targets_view(ts@)[j] == targets_view(before)[j] by {
                    assert(ts@[j] == before[j]);
                }
                assert(targets_view(ts@)[i as int] == want[i as int]);
            }
            i = i + 1;
        }
        assert(want.take(n as int) =~= want);
        return Ok(ts);
    }
    let name = plugin.unwrap();
    match config.plugins.get(name) {
        Some(pc) => {
            let url = match &pc.url {
                Some(u) => Some(u.clone()),
                None => None,
            };
            ts.push((owned(name), url));
            assert(targets_view(ts@) =~= seq![(name@, crate::plugins::url_view(*pc))]);
            Ok(ts)
        },
        None => Err(plugin_not_found_error(name)),
    }
}

/// What refreshing one plugin came to.
pub enum Outcome {
    LocalSkipped,
    UpToDate,
    Pending(DiffSummary),
}

/// The status JSON mode reports for an outcome of a dry run.
pub open spec fn dry_status(o: Outcome) -> Seq<char> {
    match o {
        Outcome::LocalSkipped => "local-skipped"@,
        Outcome::UpToDate => "up-to-date"@,
        Outcome::Pending(_) => "would-refresh"@,
    }
}

/// The status reported for an outcome before anything is applied.
pub fn outcome_status(o: &Outcome) -> (r: &'static str)
    ensures
        r@ == dry_status(*o),
{
    match o {
        Outcome::LocalSkipped => "local-skipped",
        Outcome::UpToDate => "up-to-date",
        Outcome::Pending(_) => "would-refresh",
    }
}

/// Whether JSON mode reports an outcome as soon as it is known: every outcome
/// of a dry run, and the skipped and up-to-date ones otherwise.
pub fn reports_status_now(format: OutputFormat, dry_run: bool, o: &Outcome) -> (b: bool)
    ensures
        b == (format == OutputFormat::Json && (dry_run || !(*o is Pending))),
{
    match format {
        OutputFormat::Json => dry_run || !matches!(o, Outcome::Pending(_)),
        OutputFormat::Text => false,
    }
}

/// A JSON array of strings.
pub open spec fn json_strings(v: Seq<Seq<char>>) -> Seq<char> {
    json_array(v.map_values(|s: Seq<char>| json_quoted(s)))
}

fn strings_json(v: &Vec<String>) -> (r: String)
    ensures
        r@ == json_strings(strs(v@)),
{
    let ghost want = strs(v@).map_values(|s: Seq<char>| json_quoted(s));
    let mut items: Vec<String> = Vec::new();
    let mut i: usize = 0;
    while i < v.len()
        invariant
            want == strs(v@).map_values(|s: Seq<char>| json_quoted(s)),
            i <= v@.len(),
            items@.len() == i,
            strs(items@) =~= want.take(i as int),
        decreases v.len() - i,
    {
        let ghost before = items@;
        items.push(json_string(v[i].as_str()));
        proof {
            assert forall|j: int| 0 <= j < i implies #[trigger] strs(items@)[j] == strs(before)[j] by {
                assert(items@[j] == before[j]);
            }
        }
        i = i + 1;
    }
    assert(want.take(v@.len() as int) =~= want);
    let mut r = owned("[");
    push_str(&mut r, join_strings(&items, ",").as_str());
    push_str(&mut r, "]");
    r
}

/// The JSON status object of one plugin (keys in the order serde_json writes them).
pub open spec fn status_json(name: Seq<char>, url: Option<Seq<char>>, status: Seq<char>, diff: Option<(Seq<Seq<char>>, Seq<Seq<char>>, Seq<Seq<char>>)>) -> Seq<char> {
    "{"@ + match diff {
        Some(d) => "\"changes\":{\"added\":"@ + json_strings(d.1) + ",\"modified\":"@ + json_strings(d.0)
            + ",\"removed\":"@ + json_strings(d.2) + "},"@,
        None => Seq::empty(),
    } + "\"name\":"@ + json_quoted(name) + ",\"status\":"@ + json_quoted(status) + ",\"url\":"@ + match url {
        Some(u) => json_quoted(u),
        None => "null"@,
    } + "}"@
}

/// The modified, added and removed paths of a pending outcome.
pub open spec fn outcome_changes(o: Outcome) -> Option<(Seq<Seq<char>>, Seq<Seq<char>>, Seq<Seq<char>>)> {
    match o {
        Outcome::Pending(d) => Some((strs(d.modified@), strs(d.added@), strs(d.removed@))),
        _ => None,
    }
}

/// The JSON line reporting one plugin's status (with its changes when pending).
pub fn emit_json_status(name: &str, url: Option<&str>, o: &Outcome, status: &str) -> (r: String)
    ensures
        r@ == status_json(name@, match url {
            Some(u) => Some(u@),
            None => None,
        }, status@, outcome_changes(*o)),
{
    let mut r = owned("{");
    match o {
        Outcome::Pending(d) => {
            push_str(&mut r, "\"changes\":{\"added\":");
            push_str(&mut r, strings_json(&d.added).as_str());
            push_str(&mut r, ",\"modified\":");
            push_str(&mut r, strings_json(&d.modified).as_str());
            push_str(&mut r, ",\"removed\":");
            push_str(&mut r, strings_json(&d.removed).as_str());
            push_str(&mut r, "},");
        },
        _ => {},
    }
    push_str(&mut r, "\"name\":");
    push_str(&mut r, json_string(name).as_str());
    push_str(&mut r, ",\"status\":");
    push_str(&mut r, json_string(status).as_str());
    push_str(&mut r, ",\"url\":");
    match url {
        Some(u) => push_str(&mut r, json_string(u).as_str()),
        None => push_str(&mut r, "null"),
    }
    push_str(&mut r, "}");
    r
}

/// The line for a local plugin, which has nothing to refresh.
pub fn local_skipped_message(name: &str) -> (r: String)
    ensures
        r@ == "Plugin '"@ + name@ + "' is local; nothing to refresh"@,
{
    message3("Plugin '", name, "' is local; nothing to refresh")
}

/// The line announcing the fetch of a plugin.
pub fn fetching_message(name: &str, url: &str) -> (r: String)
    ensures
        r@ == "Fetching "@ + name@ + " from "@ + url@ + "..."@,
{
    let mut r = message3("Fetching ", name, " from ");
    push_str(&mut r, url);
    push_str(&mut r, "...");
    r
}

/// The line for a plugin whose upstream content is what it has.
pub fn up_to_date_message(name: &str) -> (r: String)
    ensures
        r@ == "Plugin '"@ + name@ + "' is up to date"@,
{
    message3("Plugin '", name, "' is up to date")
}

/// The line for a refreshed plugin.
pub fn refreshed_message(name: &str) -> (r: String)
    ensures
        r@ == "Refreshed plugin '"@ + name@ + "'"@,
{
    message3("Refreshed plugin '", name, "'")
}

/// The lines listing what differs: modified (`M`), then added (`A`), then removed (`D`) paths.
pub open spec fn diff_lines(d: DiffSummary) -> Seq<Seq<char>> {
    seq!["The following files differ from upstream:"@]
        + strs(d.modified@).map_values(|p: Seq<char>| "  M "@ + p)
        + strs(d.added@).map_values(|p: Seq<char>| "  A "@ + p)
        + strs(d.removed@).map_values(|p: Seq<char>| "  D "@ + p)
}

fn push_marked(out: &mut String, mark: &str, paths: &Vec<String>)
    ensures
        final(out)@ == old(out)@ + unlines(strs(paths@).map_values(|p: Seq<char>| mark@ + p)),
{
    let ghost start = out@;
    let ghost ls = strs(paths@).map_values(|p: Seq<char>| mark@ + p);
    let mut i: usize = 0;
    while i < paths.len()
        invariant
            i <= paths@.len(),
            ls == strs(paths@).map_values(|p: Seq<char>| mark@ + p),
            out@ == start + unlines(ls.take(i as int)),
        decreases paths.len() - i,
    {
        push_str(out, mark);
        push_line(out, paths[i].as_str());
        proof {
            assert(ls.take(i + 1).drop_last() =~= ls.take(i as int));
            assert(ls[i as int] == mark@ + paths@[i as int]@);
        }
        i = i + 1;
    }
    assert(ls.take(paths@.len() as int) =~= ls);
}

/// The text listing what differs from upstream.
pub fn diff_text(d: &DiffSummary) -> (r: String)
    ensures
        r@ == unlines(diff_lines(*d)),
{
    let ghost head = seq!["The following files differ from upstream:"@];
    let mut out = String::new();
    push_line(&mut out, "The following files differ from upstream:");
    proof {
        assert(head.drop_last() =~= Seq::<Seq<char>>::empty());
        assert(unlines(head) =~= unlines(Seq::<Seq<char>>::empty()) + head[0] + "\n"@);
    }
    push_marked(&mut out, "  M ", &d.modified);
    push_marked(&mut out, "  A ", &d.added);
    push_marked(&mut out, "  D ", &d.removed);
    proof {
        let ml = strs(d.modified@).map_values(|p: Seq<char>| "  M "@ + p);
        let al = strs(d.added@).map_values(|p: Seq<char>| "  A "@ + p);
        let rl = strs(d.removed@).map_values(|p: Seq<char>| "  D "@ + p);
        crate::registry::lemma_unlines_append(head, ml);
        crate::registry::lemma_unlines_append(head + ml, al);
        crate::registry::lemma_unlines_append(head + ml + al, rl);
    }
    out
}

/// One plugin's line in the confirmation of `plugin refresh --all`.
pub open spec fn change_count_line(name: Seq<char>, d: DiffSummary) -> Seq<char> {
    "  "@ + name + " \u{2014} "@ + crate::text::decimal(d.modified@.len()) + " modified, "@
        + crate::text::decimal(d.added@.len()) + " added, "@ + crate::text::decimal(d.removed@.len()) + " removed"@
}

/// The lines naming the pending plugins and their change counts.
pub open spec fn pending_lines(results: Seq<(Seq<char>, Outcome)>) -> Seq<Seq<char>>
    decreases results.len(),
{
    if results.len() == 0 {
        Seq::empty()
    } else {
        let rest = pending_lines(results.drop_last());
        match results.last().1 {
            Outcome::Pending(d) => rest.push(change_count_line(results.last().0, d)),
            _ => rest,
        }
    }
}

/// Plugin names and their outcomes.
pub open spec fn results_view(v: Seq<(String, Outcome)>) -> Seq<(Seq<char>, Outcome)> {
    v.map_values(|r: (String, Outcome)| (r.0@, r.1))
}

/// The question `plugin refresh --all` asks: the plugins with changes and
/// their counts, then `Apply all? [y/N] ` (no newline).
#[verifier::spinoff_prover]
#[verifier::rlimit(40)]
pub fn emit_aggregate_prompt(results: &Vec<(String, Outcome)>) -> (r: String)
    ensures
        r@ == unlines(seq!["Changes detected in:"@] + pending_lines(results_view(results@))) + "Apply all? [y/N] "@,
{
    let ghost rv = results_view(results@);
    let mut out = String::new();
    push_line(&mut out, "Changes detected in:");
    let ghost head = out@;
    let mut i: usize = 0;
    while i < results.len()
        invariant
            rv == results_view(results@),
            i <= results@.len(),
            out@ == head + unlines(pending_lines(rv.take(i as int))),
        decreases results.len() - i,
    {
        let (name, o) = &results[i];
        proof {
            assert(rv.take(i + 1).drop_last() =~= rv.take(i as int));
            assert(rv.take(i + 1).last() == (name@, *o));
        }
        match o {
            Outcome::Pending(d) => {
                push_str(&mut out, "  ");
                push_str(&mut out, name.as_str());
                push_str(&mut out, " \u{2014} ");
                crate::text::push_decimal(&mut out, d.modified.len());
                push_str(&mut out, " modified, ");
                crate::text::push_decimal(&mut out, d.added.len());
                push_str(&mut out, " added, ");
                crate::text::push_decimal(&mut out, d.removed.len());
                push_line(&mut out, " removed");
                proof {
                    let pl = pending_lines(rv.take(i as int));
                    let l = change_count_line(name@, *d);
                    assert(pending_lines(rv.take(i + 1)) == pl.push(l));
                    assert(pl.push(l).drop_last() =~= pl);
                    assert(pl.push(l).last() == l);
                }
            },
            _ => {
                assert(pending_lines(rv.take(i + 1)) == pending_lines(rv.take(i as int)));
            },
        }
        i = i + 1;
    }
    proof {
        assert(rv.take(results@.len() as int) =~= rv);
        let h = seq!["Changes detected in:"@];
        assert(h.drop_last() =~= Seq::<Seq<char>>::empty());
        assert(unlines(h) =~= unlines(Seq::<Seq<char>>::empty()) + h[0] + "\n"@);
        crate::registry::lemma_unlines_append(h, pending_lines(rv));
    }
    push_str(&mut out, "Apply all? [y/N] ");
    out
}

/// What `plugin refresh` does once every plugin has been looked at.
pub enum Proceed {
    /// Nothing is pending: nothing to apply.
    Nothing,
    /// Apply without asking (`--yes`).
    Apply,
    /// Ask first.
    Ask,
}

/// Decides whether to apply the pending refreshes: only when some are pending,
/// at once with `--yes`, else after asking.
pub fn proceed_decision(results: &Vec<(String, Outcome)>, yes: bool) -> (r: Proceed)
    ensures
        (exists|i: int| 0 <= i < results@.len() && #[trigger] results@[i].1 is Pending) ==> (if yes {
            r is Apply
        } else {
            r is Ask
        }),
        !(exists|i: int| 0 <= i < results@.len() && #[trigger] results@[i].1 is Pending) ==> r is Nothing,
{
    let mut any = false;
    let mut i: usize = 0;
    while i < results.len()
        invariant
            i <= results@.len(),
            any == exists|j: int| 0 <= j < i && #[trigger] results@[j].1 is Pending,
        decreases results.len() - i,
    {
        if matches!(results[i].1, Outcome::Pending(_)) {
            any = true;
        }
        i = i + 1;
    }
    if !any {
        Proceed::Nothing
    } else if yes {
        Proceed::Apply
    } else {
        Proceed::Ask
    }
}

/// Whether a diff summary lists nothing.
pub open spec fn no_difference(d: DiffSummary) -> bool {
    d.modified@.len() == 0 && d.added@.len() == 0 && d.removed@.len() == 0
}

/// What refreshing one plugin found, from its URL (`None` for a plugin
/// created locally, which is skipped), whether the fetched copy holds a
/// `plugin.yml` (if not, the fetch is not a valid plugin), and how its files
/// differ from the installed ones (nothing: up to date; else pending).
pub fn classify_fetch(url: Option<&str>, has_manifest: bool, diff: DiffSummary) -> (r: Result<Outcome, Failure>)
    ensures
        url is None ==> (r matches Ok(o) && o is LocalSkipped),
        url is Some && !has_manifest ==> (r matches Err(Failure::Homeos(e))
            && e.reason == reasons::NOT_A_VALID_HOMEOS_PLUGIN
            && e.message@ == "Not a valid homeos plugin. Cloned directory removed."@),
        url is Some && has_manifest && no_difference(diff) ==> (r matches Ok(o) && o is UpToDate),
        url is Some && has_manifest && !no_difference(diff) ==> r == Ok::<Outcome, Failure>(Outcome::Pending(diff)),
{
    match url {
        None => Ok(Outcome::LocalSkipped),
        Some(_) => {
            if !has_manifest {
                Err(crate::plugins::invalid_plugin_error())
            } else if diff.is_empty() {
                Ok(Outcome::UpToDate)
            } else {
                Ok(Outcome::Pending(diff))
            }
        },
    }
}

/// What the text mode writes for a plugin once it was looked at: that it is
/// local, that it is up to date, or the files that differ.
pub fn outcome_text(name: &str, o: &Outcome) -> (r: String)
    ensures
        o is LocalSkipped ==> r@ == "Plugin '"@ + name@ + "' is local; nothing to refresh"@ + "\n"@,
        o is UpToDate ==> r@ == "Plugin '"@ + name@ + "' is up to date"@ + "\n"@,
        *o matches Outcome::Pending(d) ==> r@ == unlines(diff_lines(d)),
{
    match o {
        Outcome::LocalSkipped => {
            let mut r = local_skipped_message(name);
            push_str(&mut r, "\n");
            r
        },
        Outcome::UpToDate => {
            let mut r = up_to_date_message(name);
            push_str(&mut r, "\n");
            r
        },
        Outcome::Pending(d) => diff_text(d),
    }
}

/// When `plugin refresh --all` finds no plugin, it stops; the text mode says so.
pub fn nothing_to_refresh(all: bool, targets: usize, format: OutputFormat) -> (r: Option<Option<String>>)
    ensures
        r is Some <==> (all && targets == 0),
        r matches Some(m) ==> (m is Some <==> format == OutputFormat::Text),
        r matches Some(Some(t)) ==> t@ == "No plugins to refresh"@,
{
    if all && targets == 0 {
        match format {
            OutputFormat::Text => Some(Some(owned("No plugins to refresh"))),
            OutputFormat::Json => Some(None),
        }
    } else {
        None
    }
}

/// The question asked before applying: the list of changed plugins for
/// `--all`, else the warning that local changes will be replaced.
pub fn refresh_question(all: bool, results: &Vec<(String, Outcome)>) -> (r: String)
    ensures
        all ==> r@ == unlines(seq!["Changes detected in:"@] + pending_lines(results_view(results@))) + "Apply all? [y/N] "@,
        !all ==> r@ == "Local changes will be replaced with upstream content.\n"@ + crate::plan::prompt_text(),
{
    if all {
        emit_aggregate_prompt(results)
    } else {
        let mut q = owned("Local changes will be replaced with upstream content.\n");
        push_str(&mut q, crate::plan::prompt());
        q
    }
}

/// The line written when the user declines: `Aborted.`, in text mode and only
/// when something was pending.
pub fn declined_line(results: &Vec<(String, Outcome)>, format: OutputFormat) -> (r: Option<String>)
    ensures
        r is Some <==> (format == OutputFormat::Text
            && exists|i: int| 0 <= i < results@.len() && #[trigger] results@[i].1 is Pending),
        r matches Some(t) ==> t@ == "Aborted."@,
{
    let any = match proceed_decision(results, false) {
        Proceed::Nothing => false,
        _ => true,
    };
    match format {
        OutputFormat::Text => if any {
            Some(owned("Aborted."))
        } else {
            None
        },
        OutputFormat::Json => None,
    }
}

/// What `plugin refresh` does once every plugin has been looked at, dry runs
/// included: a dry run applies nothing (and asks nothing); otherwise as
/// `proceed_decision` decides.
pub fn refresh_next(results: &Vec<(String, Outcome)>, dry_run: bool, yes: bool) -> (r: Proceed)
    ensures
        dry_run ==> r is Nothing,
        !dry_run && (exists|i: int| 0 <= i < results@.len() && #[trigger] results@[i].1 is Pending) ==> (if yes {
            r is Apply
        } else {
            r is Ask
        }),
        !dry_run && !(exists|i: int| 0 <= i < results@.len() && #[trigger] results@[i].1 is Pending) ==> r is Nothing,
{
    if dry_run {
        Proceed::Nothing
    } else {
        proceed_decision(results, yes)
    }
}

proof fn lemma_paths_from(files: Seq<FileVersions>, f: spec_fn(Option<Seq<u8>>, Option<Seq<u8>>) -> bool, i: int)
    requires
        0 <= i < paths_where(files, f).len(),
    ensures
        exists|k: int| 0 <= k < files.len() && paths_where(files, f)[i] == (#[trigger] files[k]).0@,
    decreases files.len(),
{
    let rest = paths_where(files.drop_last(), f);
    if i < rest.len() {
        lemma_paths_from(files.drop_last(), f, i);
        let k = choose|k: int| 0 <= k < files.drop_last().len() && rest[i] == (#[trigger] files.drop_last()[k]).0@;
        assert(files[k] == files.drop_last()[k]);
    } else {
        assert(files[files.len() - 1] == files.last());
    }
}

/// Each list of a diff keeps the order of the files it was computed from:
/// paths given in increasing order (for any order `lt`) are listed in
/// increasing order.
pub proof fn law_diff_keeps_order(
    files: Seq<FileVersions>,
    f: spec_fn(Option<Seq<u8>>, Option<Seq<u8>>) -> bool,
    lt: spec_fn(Seq<char>, Seq<char>) -> bool,
)
    requires
        forall|i: int, j: int| 0 <= i < j < files.len() ==> lt(#[trigger] files[i].0@, #[trigger] files[j].0@),
    ensures
        forall|i: int, j: int| 0 <= i < j < paths_where(files, f).len()
            ==> lt(#[trigger] paths_where(files, f)[i], #[trigger] paths_where(files, f)[j]),
    decreases files.len(),
{
    if files.len() > 0 {
        let d = files.drop_last();
        assert forall|i: int, j: int| 0 <= i < j < d.len() implies lt(#[trigger] d[i].0@, #[trigger] d[j].0@) by {
            assert(d[i] == files[i] && d[j] == files[j]);
        }
        law_diff_keeps_order(d, f, lt);
        let rest = paths_where(d, f);
        let all = paths_where(files, f);
        assert forall|i: int, j: int| 0 <= i < j < all.len() implies lt(#[trigger] all[i], #[trigger] all[j]) by {
            if j < rest.len() {
                assert(all[i] == rest[i] && all[j] == rest[j]);
            } else {
                assert(all[i] == rest[i]);
                lemma_paths_from(d, f, i);
                let k = choose|k: int| 0 <= k < d.len() && rest[i] == (#[trigger] d[k]).0@;
                assert(d[k] == files[k]);
                let n = files.len() - 1;
                assert(all[j] == files[n].0@);
                assert(lt(files[k].0@, files[n].0@));
            }
        }
    }
}

/// A file is reported in at most one of the three lists: modified, added, removed.
pub proof fn law_diff_kinds_exclusive(o: Option<Seq<u8>>, n: Option<Seq<u8>>)
    ensures
        !(is_modified()(o, n) && is_added()(o, n)),
        !(is_modified()(o, n) && is_removed()(o, n)),
        !(is_added()(o, n) && is_removed()(o, n)),
        (o is Some || n is Some) && !is_modified()(o, n) && !is_added()(o, n) && !is_removed()(o, n) ==> o == n,
{
}

} // verus!
