//! Where homeos keeps its data, and the options every command shares.
use vstd::prelude::*;
use crate::error::{Failure, HomeosError, json_quoted, json_string, reasons};
use crate::output::OutputFormat;
use crate::text::{owned, push_char, push_str};

verus! {

/// The path separator of the platform this program was built for.
#[verifier::external_body]
pub(crate) fn main_separator() -> (c: char)
    ensures
        c == '/' || c == '\\',
{
    std::path::MAIN_SEPARATOR
}

/// `base` joined with the relative component `seg`, using `sep` as separator:
/// no separator is added after an empty base or one that already ends in one.
pub open spec fn path_join(base: Seq<char>, seg: Seq<char>, sep: char) -> Seq<char> {
    if base.len() == 0 {
        seg
    } else if base.last() == '/' || base.last() == sep {
        base + seg
    } else {
        base.push(sep) + seg
    }
}

/// Joins the relative component `seg` onto `base` with the separator `sep`.
pub fn join_path(base: &str, seg: &str, sep: char) -> (r: String)
    ensures
        r@ == path_join(base@, seg@, sep),
{
    let mut r = owned(base);
    let n = crate::text::chars_of(base);
    if n.len() > 0 {
        let last = n[n.len() - 1];
        if last != '/' && last != sep {
            push_char(&mut r, sep);
        }
    }
    push_str(&mut r, seg);
    r
}

/// The data directory, the output format and whether prompts are answered yes.
pub struct Context {
    data_dir: String,
    separator: char,
    output_format: OutputFormat,
    yes: bool,
}

impl Context {
    /// The data directory.
    pub closed spec fn dir(&self) -> Seq<char> {
        self.data_dir@
    }

    /// The path separator the context joins paths with.
    pub closed spec fn sep(&self) -> char {
        self.separator
    }

    /// The selected output format.
    pub closed spec fn format(&self) -> OutputFormat {
        self.output_format
    }

    /// Whether prompts are answered yes.
    pub closed spec fn assume_yes(&self) -> bool {
        self.yes
    }

    fn with_dir(data_dir: String) -> (r: Self)
        ensures
            r.dir() == data_dir@,
            r.sep() == '/' || r.sep() == '\\',
            r.format() == OutputFormat::Text,
            !r.assume_yes(),
    {
        Context { data_dir, separator: main_separator(), output_format: OutputFormat::Text, yes: false }
    }

    /// The context for the data directory given on the command line, else the
    /// one in `HOMEOS_DATA_DIR` (`env_dir`), else `homeos` under the platform's
    /// local data directory (`local_dir`).
    pub fn new(data_dir: Option<String>, env_dir: Option<String>, local_dir: Option<String>) -> (r: Self)
        requires
            data_dir is Some || env_dir is Some || local_dir is Some,
        ensures
            data_dir matches Some(d) ==> r.dir() == d@,
            (data_dir is None && env_dir is Some) ==> r.dir() == env_dir->0@,
            data_dir is None && env_dir is None ==> r.dir() == path_join(local_dir->0@, "homeos"@, r.sep()),
            r.sep() == '/' || r.sep() == '\\',
            r.format() == OutputFormat::Text,
            !r.assume_yes(),
    {
        match data_dir {
            Some(d) => Self::with_dir(d),
            None => match env_dir {
                Some(e) => Self::with_dir(e),
                None => {
                    let sep = main_separator();
                    let local = local_dir.unwrap();
                    let d = join_path(local.as_str(), "homeos", sep);
                    Context { data_dir: d, separator: sep, output_format: OutputFormat::Text, yes: false }
                },
            },
        }
    }

    /// Like `new` without a command-line directory, but `None` where neither
    /// the variable nor a local data directory is available.
    pub fn try_new(env_dir: Option<String>, local_dir: Option<String>) -> (r: Option<Self>)
        ensures
            r is Some <==> (env_dir is Some || local_dir is Some),
            r matches Some(c) ==> {
                &&& env_dir is Some ==> c.dir() == env_dir->0@
                &&& env_dir is None ==> c.dir() == path_join(local_dir->0@, "homeos"@, c.sep())
                &&& c.sep() == '/' || c.sep() == '\\'
                &&& c.format() == OutputFormat::Text
                &&& !c.assume_yes()
            },
    {
        if env_dir.is_none() && local_dir.is_none() {
            None
        } else {
            Some(Self::new(None, env_dir, local_dir))
        }
    }

    /// The same context with another output format.
    pub fn with_output_format(self, output_format: OutputFormat) -> (r: Self)
        ensures
            r.format() == output_format,
            r.dir() == self.dir(),
            r.sep() == self.sep(),
            r.assume_yes() == self.assume_yes(),
    {
        Context { output_format, ..self }
    }

    /// The same context with prompts answered (or not) automatically.
    pub fn with_yes(self, yes: bool) -> (r: Self)
        ensures
            r.assume_yes() == yes,
            r.dir() == self.dir(),
            r.sep() == self.sep(),
            r.format() == self.format(),
    {
        Context { yes, ..self }
    }

    /// The data directory.
    pub fn data_dir(&self) -> (r: &str)
        ensures
            r@ == self.dir(),
    {
        self.data_dir.as_str()
    }

    /// The separator paths are joined with.
    pub fn separator(&self) -> (r: char)
        ensures
            r == self.sep(),
    {
        self.separator
    }

    /// The selected output format.
    pub fn output_format(&self) -> (r: OutputFormat)
        ensures
            r == self.format(),
    {
        self.output_format
    }

    /// Whether prompts are answered yes.
    pub fn yes(&self) -> (r: bool)
        ensures
            r == self.assume_yes(),
    {
        self.yes
    }

    /// A path inside the data directory.
    pub fn data_path(&self, seg: &str) -> (r: String)
        ensures
            r@ == path_join(self.dir(), seg@, self.sep()),
    {
        join_path(self.data_dir.as_str(), seg, self.separator)
    }

    /// The configuration file, `homeos.yml`.
    pub fn config_path(&self) -> (r: String)
        ensures
            r@ == path_join(self.dir(), "homeos.yml"@, self.sep()),
    {
        self.data_path("homeos.yml")
    }

    /// The machine-local state file, `state.yml`.
    pub fn state_path(&self) -> (r: String)
        ensures
            r@ == path_join(self.dir(), "state.yml"@, self.sep()),
    {
        self.data_path("state.yml")
    }

    /// The data directory's `.gitignore`.
    pub fn gitignore_path(&self) -> (r: String)
        ensures
            r@ == path_join(self.dir(), ".gitignore"@, self.sep()),
    {
        self.data_path(".gitignore")
    }

    /// The directory of package scripts.
    pub fn packages_dir(&self) -> (r: String)
        ensures
            r@ == path_join(self.dir(), "packages"@, self.sep()),
    {
        self.data_path("packages")
    }

    /// The directory of plugins.
    pub fn plugins_dir(&self) -> (r: String)
        ensures
            r@ == path_join(self.dir(), "plugins"@, self.sep()),
    {
        self.data_path("plugins")
    }
}

/// The message when the data directory is missing.
pub open spec fn data_dir_missing_message(dir: Seq<char>) -> Seq<char> {
    "Data directory not found at "@ + dir + ". Run 'homeos init' first."@
}

/// The directory `homeos cd` enters: the data directory, when it exists.
pub fn resolve_target(ctx: &Context, dir_exists: bool) -> (r: Result<String, Failure>)
    ensures
        dir_exists ==> (r matches Ok(d) && d@ == ctx.dir()),
        !dir_exists ==> (r matches Err(Failure::Homeos(e)) && e.reason == reasons::DATA_DIR_NOT_FOUND
            && e.message@ == data_dir_missing_message(ctx.dir())),
{
    let dir = owned(ctx.data_dir());
    if !dir_exists {
        let mut m = owned("Data directory not found at ");
        push_str(&mut m, dir.as_str());
        push_str(&mut m, ". Run 'homeos init' first.");
        return Err(Failure::Homeos(HomeosError::new(reasons::DATA_DIR_NOT_FOUND, m)));
    }
    Ok(dir)
}

/// The line `--print` writes for a directory: the path itself, or a JSON
/// object with a `path` field.
pub open spec fn path_output(dir: Seq<char>, format: OutputFormat) -> Seq<char> {
    match format {
        OutputFormat::Json => "{\"path\":"@ + json_quoted(dir) + "}"@,
        OutputFormat::Text => dir,
    }
}

/// The line (without its newline) that prints `dir` in the given format.
pub fn print_path(dir: &str, format: OutputFormat) -> (r: String)
    ensures
        r@ == path_output(dir@, format),
{
    match format {
        OutputFormat::Json => {
            let mut r = owned("{\"path\":");
            push_str(&mut r, json_string(dir).as_str());
            push_str(&mut r, "}");
            r
        },
        OutputFormat::Text => owned(dir),
    }
}

} // verus!
