//! The agent guide: the command reference built from the command tree, and
//! the template it is put into.
use vstd::prelude::*;
use crate::plan::trim_end_spec;
use crate::template::{replace_all, replace_spec};
use crate::text::{owned, push_char, push_str};

verus! {

/// One argument of a command, as the guide reads it.
pub struct ArgInfo {
    pub id: String,
    pub positional: bool,
    pub long: Option<String>,
    pub short: Option<char>,
    pub help: Option<String>,
    pub hidden: bool,
    pub global: bool,
}

/// A command with its description, arguments and subcommands.
pub struct CommandInfo {
    pub name: String,
    pub about: Option<String>,
    pub args: Vec<ArgInfo>,
    pub subcommands: Vec<CommandInfo>,
}

/// The uppercase form of `s`, as `str::to_uppercase` gives it.
pub uninterp spec fn uppercase(s: Seq<char>) -> Seq<char>;

/// `str::to_uppercase`: the result is named `uppercase(s)`; nothing more is
/// claimed of it (its Unicode mapping is not stated).
#[verifier::external_body]
fn to_uppercase(s: &str) -> (r: String)
    ensures
        r@ == uppercase(s@),
{
    s.to_uppercase()
}

/// How an argument is named: `<ID>` for a positional one, else `--long`,
/// else `-s`, else its id.
pub open spec fn arg_identifier(a: ArgInfo) -> Seq<char> {
    if a.positional {
        "<"@ + uppercase(a.id@) + ">"@
    } else if a.long is Some {
        "--"@ + a.long->0@
    } else if a.short is Some {
        seq!['-', a.short->0]
    } else {
        a.id@
    }
}

/// The help text of an argument (empty when it has none).
pub open spec fn arg_help(a: ArgInfo) -> Seq<char> {
    match a.help {
        Some(h) => h@,
        None => Seq::empty(),
    }
}

/// The guide's line for an argument: ``- `<identifier>` `` followed by ` — <help>` when it has help.
pub open spec fn arg_entry(a: ArgInfo) -> Seq<char> {
    if arg_help(a).len() == 0 {
        "- `"@ + arg_identifier(a) + "`"@
    } else {
        "- `"@ + arg_identifier(a) + "` — "@ + arg_help(a)
    }
}

/// The guide lists an argument unless it is hidden, global, or `help` / `version`.
pub open spec fn arg_shown(a: ArgInfo) -> bool {
    !a.hidden && !a.global && a.id@ != "help"@ && a.id@ != "version"@
}

/// The lines of the shown arguments, each ending in a newline.
pub open spec fn args_text(args: Seq<ArgInfo>) -> Seq<char>
    decreases args.len(),
{
    if args.len() == 0 {
        Seq::empty()
    } else if arg_shown(args.last()) {
        args_text(args.drop_last()) + arg_entry(args.last()) + "\n"@
    } else {
        args_text(args.drop_last())
    }
}

/// The guide's entry for a command without subcommands of its own: a heading
/// with its path, its description, then its shown arguments.
pub open spec fn leaf_text(c: CommandInfo, path: Seq<char>) -> Seq<char> {
    "### `"@ + path + "`\n\n"@ + (match c.about {
        Some(a) => a@ + "\n\n"@,
        None => Seq::empty(),
    }) + (if args_text(c.args@).len() == 0 {
        Seq::empty()
    } else {
        args_text(c.args@) + "\n"@
    })
}

/// Whether a command has a subcommand other than `help`.
pub open spec fn has_nested(c: CommandInfo) -> bool {
    exists|i: int| 0 <= i < c.subcommands@.len() && #[trigger] c.subcommands@[i].name@ != "help"@
}

/// The entries for the subcommands `subs` of the command at `path`, in order:
/// `help` is left out, a subcommand with subcommands of its own contributes
/// those, and any other contributes its own entry.
pub open spec fn walk_text(subs: Seq<CommandInfo>, path: Seq<char>) -> Seq<char>
    decreases subs,
{
    if subs.len() == 0 {
        Seq::empty()
    } else {
        let sub = subs.last();
        let sub_path = path + " "@ + sub.name@;
        let rest = walk_text(subs.drop_last(), path);
        if sub.name@ == "help"@ {
            rest
        } else if has_nested(sub) {
            proof {
                assert(decreases_to!(subs => subs[subs.len() - 1]));
                assert(decreases_to!(sub => sub.subcommands));
                assert(decreases_to!(sub.subcommands => sub.subcommands@));
            }
            rest + walk_text(sub.subcommands@, sub_path)
        } else {
            rest + leaf_text(sub, sub_path)
        }
    }
}

fn arg_entry_of(a: &ArgInfo) -> (r: String)
    ensures
        r@ == arg_entry(*a),
{
    let mut r = owned("- `");
    let ghost head = r@;
    if a.positional {
        push_str(&mut r, "<");
        push_str(&mut r, to_uppercase(a.id.as_str()).as_str());
        push_str(&mut r, ">");
    } else {
        match &a.long {
            Some(l) => {
                push_str(&mut r, "--");
                push_str(&mut r, l.as_str());
            },
            None => match a.short {
                Some(c) => {
                    push_char(&mut r, '-');
                    push_char(&mut r, c);
                    assert(seq!['-', c] =~= seq!['-'].push(c));
                },
                None => push_str(&mut r, a.id.as_str()),
            },
        }
    }
    assert(r@ =~= head + arg_identifier(*a));
    let help_shown = match &a.help {
        Some(h) => crate::text::chars_of(h.as_str()).len() > 0,
        None => false,
    };
    if help_shown {
        push_str(&mut r, "` — ");
        match &a.help {
            Some(h) => push_str(&mut r, h.as_str()),
            None => {},
        }
    } else {
        push_str(&mut r, "`");
    }
    assert(r@ =~= arg_entry(*a));
    r
}

fn args_text_of(args: &Vec<ArgInfo>) -> (r: String)
    ensures
        r@ == args_text(args@),
{
    let mut r = String::new();
    let mut i: usize = 0;
    while i < args.len()
        invariant
            i <= args@.len(),
            r@ == args_text(args@.take(i as int)),
        decreases args.len() - i,
    {
        proof {
            assert(args@.take(i + 1).drop_last() =~= args@.take(i as int));
            assert(args@.take(i + 1).last() == args@[i as int]);
        }
        let a = &args[i];
        let shown = !a.hidden && !a.global && !crate::text::str_eq(a.id.as_str(), "help")
            && !crate::text::str_eq(a.id.as_str(), "version");
        if shown {
            let e = arg_entry_of(a);
            push_str(&mut r, e.as_str());
            push_str(&mut r, "\n");
        }
        i = i + 1;
    }
    assert(args@.take(args@.len() as int) =~= args@);
    r
}

fn leaf_text_of(c: &CommandInfo, path: &str) -> (r: String)
    ensures
        r@ == leaf_text(*c, path@),
{
    let mut r = owned("### `");
    push_str(&mut r, path);
    push_str(&mut r, "`\n\n");
    match &c.about {
        Some(a) => {
            push_str(&mut r, a.as_str());
            push_str(&mut r, "\n\n");
        },
        None => {},
    }
    let t = args_text_of(&c.args);
    if crate::text::chars_of(t.as_str()).len() > 0 {
        push_str(&mut r, t.as_str());
        push_str(&mut r, "\n");
    }
    assert(r@ =~= leaf_text(*c, path@));
    r
}

fn nested(c: &CommandInfo) -> (b: bool)
    ensures
        b == has_nested(*c),
{
    let mut i: usize = 0;
    while i < c.subcommands.len()
        invariant
            i <= c.subcommands@.len(),
            forall|j: int| 0 <= j < i ==> #[trigger] c.subcommands@[j].name@ == "help"@,
        decreases c.subcommands.len() - i,
    {
        if !crate::text::str_eq(c.subcommands[i].name.as_str(), "help") {
            return true;
        }
        i = i + 1;
    }
    false
}

/// Appends the entries for the subcommands `subs` of the command at `path`.
fn walk(subs: &Vec<CommandInfo>, path: &str, out: &mut String)
    ensures
        final(out)@ == old(out)@ + walk_text(subs@, path@),
    decreases subs@,
{
    let ghost start = out@;
    let mut i: usize = 0;
    while i < subs.len()
        invariant
            i <= subs@.len(),
            out@ == start + walk_text(subs@.take(i as int), path@),
        decreases subs.len() - i,
    {
        let ghost before = out@;
        let sub = &subs[i];
        proof {
            assert(subs@.take(i + 1).drop_last() =~= subs@.take(i as int));
            assert(subs@.take(i + 1).last() == subs@[i as int]);
        }
        if !crate::text::str_eq(sub.name.as_str(), "help") {
            let mut sub_path = owned(path);
            push_str(&mut sub_path, " ");
            push_str(&mut sub_path, sub.name.as_str());
            if nested(sub) {
                proof {
                    assert(decreases_to!(subs@ => subs@[i as int]));
                    assert(decreases_to!(subs@[i as int] => subs@[i as int].subcommands));
                    assert(decreases_to!(subs@[i as int].subcommands => subs@[i as int].subcommands@));
                }
                walk(&sub.subcommands, sub_path.as_str(), out);
            } else {
                let t = leaf_text_of(sub, sub_path.as_str());
                push_str(out, t.as_str());
            }
        }
        assert(out@ =~= start + walk_text(subs@.take(i + 1), path@));
        i = i + 1;
    }
    assert(subs@.take(subs@.len() as int) =~= subs@);
}

/// `s` without its trailing whitespace (as `str::trim_end` removes it).
fn trim_end(s: &String) -> (r: String)
    ensures
        r@ == trim_end_spec(s@),
{
    let cs = crate::text::chars_of(s.as_str());
    let mut n: usize = cs.len();
    assert(cs@.take(n as int) =~= cs@);
    while n > 0 && crate::plan::is_space(cs[n - 1])
        invariant
            n <= cs@.len(),
            cs@ == s@,
            trim_end_spec(s@) == trim_end_spec(cs@.take(n as int)),
        decreases n,
    {
        proof {
            assert(cs@.take(n as int).drop_last() =~= cs@.take(n - 1));
        }
        n = n - 1;
    }
    proof {
        if n > 0 {
            assert(cs@.take(n as int).last() == cs@[n - 1]);
        }
    }
    let mut r = String::new();
    let mut i: usize = 0;
    while i < n
        invariant
            i <= n,
            n <= cs@.len(),
            r@ == cs@.take(i as int),
        decreases n - i,
    {
        push_char(&mut r, cs[i]);
        assert(cs@.take(i + 1) =~= cs@.take(i as int).push(cs@[i as int]));
        i = i + 1;
    }
    proof {
        assert(s@.take(s@.len() as int) =~= s@);
    }
    r
}

/// The command reference of the guide: the entries of every command under
/// `root` (named `homeos`), without the trailing whitespace.
pub fn commands_reference(root: &CommandInfo) -> (r: String)
    ensures
        r@ == trim_end_spec(walk_text(root.subcommands@, "homeos"@)),
{
    let mut out = String::new();
    walk(&root.subcommands, "homeos", &mut out);
    assert(out@ =~= walk_text(root.subcommands@, "homeos"@));
    trim_end(&out)
}

/// The guide: the template with its line endings made `\n` and its
/// `{{ commands_reference }}` placeholder replaced by the reference.
pub fn render(template: &str, reference: &str) -> (r: String)
    ensures
        r@ == replace_spec(replace_spec(template@, "\r\n"@, "\n"@), "{{ commands_reference }}"@, reference@),
{
    proof {
        reveal_strlit("\r\n");
        reveal_strlit("{{ commands_reference }}");
    }
    let unix = replace_all(template, "\r\n", "\n");
    replace_all(unix.as_str(), "{{ commands_reference }}", reference)
}

} // verus!
