//! The command line: which command runs, on which terms and index file, and
//! the paths and shell settings that an installation uses.
use vstd::prelude::*;
use vstd::string::StringExecFns;
use crate::package::Package;
use crate::text::{
    chars_of, range_equals, range_starts_with, slices, split, split_range, starts_with,
    strip_prefixes, strip_prefixes_of, views,
};

verus! {

broadcast use vstd::string::group_string_axioms;

/// The commands of the command line.
#[derive(Debug, Clone, Copy, PartialEq, Eq, Structural)]
pub enum Command {
    Help,
    Update,
    DumpIndex,
    Info,
    Search,
    LocalInstall,
    Install,
    Invalid,
}

/// The command that a command word selects.
pub open spec fn command_of(cmd: Seq<char>) -> Command {
    if cmd == "help"@ || cmd == "h"@ {
        Command::Help
    } else if cmd == "update"@ {
        Command::Update
    } else if cmd == "__dbg_pkg__"@ {
        Command::DumpIndex
    } else if cmd == "info"@ || cmd == "about"@ {
        Command::Info
    } else if cmd == "search"@ || cmd == "look"@ || cmd == "find"@ {
        Command::Search
    } else if cmd == "local-install"@ {
        Command::LocalInstall
    } else if cmd == "install"@ {
        Command::Install
    } else {
        Command::Invalid
    }
}

/// An argument that names the index file.
pub open spec fn is_index_file_arg(a: Seq<char>) -> bool {
    starts_with(a, "indexfile="@)
}

/// `p` is the position of the first index-file argument of `args`.
pub open spec fn is_first_index_file_arg(args: Seq<Seq<char>>, p: int) -> bool {
    0 <= p < args.len() && is_index_file_arg(args[p]) && forall|k: int|
        0 <= k < p ==> !is_index_file_arg(#[trigger] args[k])
}

/// The position of the first index-file argument, if any.
pub open spec fn first_index_file_arg(args: Seq<Seq<char>>) -> Option<int> {
    if exists|p: int| is_first_index_file_arg(args, p) {
        Some(choose|p: int| is_first_index_file_arg(args, p))
    } else {
        None
    }
}

/// The index file used when no argument names one.
pub open spec fn default_index_file(host: Seq<char>) -> Seq<char> {
    "/home/"@ + host + "/.gobbled.gob"@
}

/// The directory that packages are installed into.
pub open spec fn install_dir_of(host: Seq<char>) -> Seq<char> {
    "/home/"@ + host + "/.gob"@
}

/// The index file that the arguments after the program name select.
pub open spec fn index_file_of(rest: Seq<Seq<char>>, host: Seq<char>) -> Seq<char> {
    match first_index_file_arg(rest) {
        Some(p) => strip_prefixes(rest[p], "indexfile="@),
        None => default_index_file(host),
    }
}

/// The terms: the arguments after the command word, less the first
/// index-file argument when it stands among them.
pub open spec fn terms_of(rest: Seq<Seq<char>>) -> Seq<Seq<char>> {
    match first_index_file_arg(rest) {
        Some(p) => if p > 0 {
            rest.drop_first().remove(p - 1)
        } else {
            rest.drop_first()
        },
        None => rest.drop_first(),
    }
}

/// Where the first argument starting with `indexfile=` comes after the
/// command word (at position `p` of the arguments after the program name),
/// the terms are the arguments after the command word with that one left
/// out: those before it, then those after it, wherever it stands (last
/// included).
pub proof fn law_index_file_arg_left_out(rest: Seq<Seq<char>>, p: int)
    requires
        0 < p < rest.len(),
        starts_with(rest[p], "indexfile="@),
        forall|k: int| 0 <= k < p ==> !starts_with(#[trigger] rest[k], "indexfile="@),
    ensures
        terms_of(rest).len() == rest.len() - 2,
        forall|q: int| 0 <= q < p - 1 ==> #[trigger] terms_of(rest)[q] == rest[q + 1],
        forall|q: int| p - 1 <= q < rest.len() - 2 ==> #[trigger] terms_of(rest)[q] == rest[q + 2],
{
    assert(is_first_index_file_arg(rest, p));
    let f = choose|f: int| is_first_index_file_arg(rest, f);
    if f < p {
        assert(!starts_with(rest[f], "indexfile="@));
    } else if f > p {
        assert(!is_index_file_arg(rest[p]));
    }
    assert(first_index_file_arg(rest) == Some(p));
}

/// Where no argument after the command word starts with `indexfile=`, and
/// the command word does not either, the terms are all the arguments after
/// the command word.
pub proof fn law_terms_without_index_file_arg(rest: Seq<Seq<char>>)
    requires
        forall|k: int| 0 <= k < rest.len() ==> !starts_with(#[trigger] rest[k], "indexfile="@),
    ensures
        terms_of(rest) == rest.drop_first(),
{
    assert(!exists|p: int| is_first_index_file_arg(rest, p));
}

/// What the command line asks for.
pub struct Invocation {
    pub command: String,
    pub search_terms: Vec<String>,
    pub index_file: String,
}

/// Whether `a` is the literal `lit`.
fn is_word(a: &Vec<char>, lit: &str) -> (r: bool)
    ensures
        r == (a@ == lit@),
{
    assert(a@.subrange(0, a.len() as int) =~= a@);
    range_equals(a, 0, a.len(), &chars_of(lit))
}

/// The command that the word `cmd` selects.
pub fn parse_command(cmd: &str) -> (r: Command)
    ensures
        r == command_of(cmd@),
{
    let c = chars_of(cmd);
    if is_word(&c, "help") || is_word(&c, "h") {
        Command::Help
    } else if is_word(&c, "update") {
        Command::Update
    } else if is_word(&c, "__dbg_pkg__") {
        Command::DumpIndex
    } else if is_word(&c, "info") || is_word(&c, "about") {
        Command::Info
    } else if is_word(&c, "search") || is_word(&c, "look") || is_word(&c, "find") {
        Command::Search
    } else if is_word(&c, "local-install") {
        Command::LocalInstall
    } else if is_word(&c, "install") {
        Command::Install
    } else {
        Command::Invalid
    }
}

/// The index file when no argument names one, for host `host`.
pub fn default_index_path(host: &str) -> (r: String)
    ensures
        r@ == default_index_file(host@),
{
    let mut r = "/home/".to_string();
    r.append(host);
    r.append("/.gobbled.gob");
    r
}

/// The directory that packages are installed into, for host `host`.
pub fn install_dir(host: &str) -> (r: String)
    ensures
        r@ == install_dir_of(host@),
{
    let mut r = "/home/".to_string();
    r.append(host);
    r.append("/.gob");
    r
}

/// The directory of the package `name` under `dir`.
pub fn package_dir(dir: &str, name: &str) -> (r: String)
    ensures
        r@ == dir@ + "/"@ + name@,
{
    let mut r = dir.to_string();
    r.append("/");
    r.append(name);
    r
}

/// How a package gets installed.
pub enum InstallMethod {
    /// An archive: unpacked into `extract_dir`, then copied into `package_dir`.
    Unpack { extract_dir: String, package_dir: String },
    /// A bare binary: moved to `binary_path` and made executable.
    Place { binary_path: String },
}

/// How package `name`, whose entry is `pkg`, is installed on host `host`:
/// an extractable package is unpacked into the install directory under its
/// entry's name and copied to the directory under `name`; any other is
/// placed in the install directory under its entry's name.
pub fn install_method(host: &str, name: &str, pkg: &Package) -> (r: InstallMethod)
    ensures
        match r {
            InstallMethod::Unpack { extract_dir, package_dir } => pkg.extractable
                && extract_dir@ == install_dir_of(host@) + "/"@ + pkg.name@ && package_dir@
                == install_dir_of(host@) + "/"@ + name@,
            InstallMethod::Place { binary_path } => !pkg.extractable && binary_path@
                == install_dir_of(host@) + "/"@ + pkg.name@,
        },
{
    let dir = install_dir(host);
    if pkg.extractable {
        InstallMethod::Unpack {
            extract_dir: package_dir(dir.as_str(), pkg.name.as_str()),
            package_dir: package_dir(dir.as_str(), name),
        }
    } else {
        InstallMethod::Place { binary_path: package_dir(dir.as_str(), pkg.name.as_str()) }
    }
}

/// Reads the command line `args` (the program name first): the command
/// word, the terms after it, and the index file, which the first argument
/// starting with `indexfile=` names (with every leading `indexfile=`
/// removed) and which is otherwise `/home/<host>/.gobbled.gob`.
pub fn parse_invocation(args: &Vec<String>, host: &str) -> (r: Invocation)
    requires
        args.len() >= 2,
    ensures
        r.command@ == views(args@)[1],
        r.index_file@ == index_file_of(views(args@).drop_first(), host@),
        views(r.search_terms@) == terms_of(views(args@).drop_first()),
{
    let ghost rest = views(args@).drop_first();
    let mut terms: Vec<String> = Vec::new();
    let mut i: usize = 2;
    while i < args.len()
        invariant
            2 <= i <= args.len(),
            rest == views(args@).drop_first(),
            views(terms@) == rest.drop_first().take(i - 2),
        decreases args.len() - i,
    {
        let ghost before = terms@;
        terms.push(args[i].clone());
        assert(views(terms@) =~= views(before).push(args@[i as int]@));
        assert(rest.drop_first()[i - 2] == args@[i as int]@);
        assert(views(terms@) =~= rest.drop_first().take(i - 1));
        i = i + 1;
    }
    assert(rest.drop_first().take(args.len() - 2) =~= rest.drop_first());
    let prefix = chars_of("indexfile=");
    let mut found: Option<usize> = None;
    let mut k: usize = 1;
    while k < args.len()
        invariant
            1 <= k <= args.len(),
            rest == views(args@).drop_first(),
            prefix@ == "indexfile="@,
            found is None ==> forall|q: int| 0 <= q < k - 1 ==> !is_index_file_arg(#[trigger] rest[q]),
            found matches Some(p) ==> 1 <= p < args.len() && is_first_index_file_arg(rest, p - 1),
        decreases args.len() - k,
    {
        if found.is_none() {
            let a = chars_of(args[k].as_str());
            assert(a@.subrange(0, a.len() as int) =~= a@);
            if range_starts_with(&a, 0, a.len(), &prefix) {
                assert(rest[k - 1] == args@[k as int]@);
                found = Some(k);
            }
        }
        k = k + 1;
    }
    let index_file = match found {
        Some(p) => {
            proof {
                let q = choose|q: int| is_first_index_file_arg(rest, q);
                if q < p - 1 {
                    assert(!is_index_file_arg(rest[q]));
                } else if q > p - 1 {
                    assert(!is_index_file_arg(rest[p - 1]));
                }
                assert(first_index_file_arg(rest) == Some(p - 1));
            }
            if p > 1 {
                let ghost before = views(terms@);
                terms.remove(p - 2);
                assert(views(terms@) =~= before.remove(p - 2));
            }
            strip_prefixes_of(&chars_of(args[p].as_str()), &prefix)
        },
        None => {
            assert(!exists|p: int| is_first_index_file_arg(rest, p));
            default_index_path(host)
        },
    };
    Invocation { command: args[1].clone(), search_terms: terms, index_file }
}

/// Whether `dir` is one of the `:`-separated entries of `path_var`.
pub fn path_has_dir(path_var: &str, dir: &str) -> (r: bool)
    ensures
        r == split(path_var@, ':').contains(dir@),
{
    let text = chars_of(path_var);
    let d = chars_of(dir);
    assert(text@.subrange(0, text.len() as int) =~= text@);
    let parts = split_range(&text, 0, text.len(), ':');
    let ghost pieces = slices(text@, parts@);
    let mut i: usize = 0;
    while i < parts.len()
        invariant
            i <= parts.len(),
            pieces == slices(text@, parts@),
            pieces == split(path_var@, ':'),
            crate::text::ranges_within(parts@, 0, text.len() as int),
            d@ == dir@,
            forall|k: int| 0 <= k < i ==> pieces[k] != dir@,
        decreases parts.len() - i,
    {
        let (a, b) = parts[i];
        assert(0 <= parts@[i as int].0 <= parts@[i as int].1 <= text.len());
        if range_equals(&text, a, b, &d) {
            assert(pieces[i as int] == dir@);
            return true;
        }
        i = i + 1;
    }
    false
}

/// The search path with `dir` put in front of `path_var`.
pub fn path_with_dir(dir: &str, path_var: &str) -> (r: String)
    ensures
        r@ == dir@ + ":"@ + path_var@,
{
    let mut r = dir.to_string();
    r.append(":");
    r.append(path_var);
    r
}

/// The shell start-up files under `home` and the line that adds `dir` to
/// the search path in each: bash, zsh and fish.
pub fn shell_config_entries(home: &str, dir: &str) -> (r: Vec<(String, String)>)
    ensures
        r.len() == 3,
        r@[0].0@ == home@ + "/.bashrc"@,
        r@[0].1@ == "\nexport PATH=\""@ + dir@ + ":$PATH\"\n"@,
        r@[1].0@ == home@ + "/.zshrc"@,
        r@[1].1@ == "\nexport PATH=\""@ + dir@ + ":$PATH\"\n"@,
        r@[2].0@ == home@ + "/.config/fish/config.fish"@,
        r@[2].1@ == "\nset -x PATH "@ + dir@ + " $PATH\n"@,
{
    let mut bash = home.to_string();
    bash.append("/.bashrc");
    let mut zsh = home.to_string();
    zsh.append("/.zshrc");
    let mut fish = home.to_string();
    fish.append("/.config/fish/config.fish");
    let mut export = "\nexport PATH=\"".to_string();
    export.append(dir);
    export.append(":$PATH\"\n");
    let mut export2 = "\nexport PATH=\"".to_string();
    export2.append(dir);
    export2.append(":$PATH\"\n");
    let mut set = "\nset -x PATH ".to_string();
    set.append(dir);
    set.append(" $PATH\n");
    let mut r: Vec<(String, String)> = Vec::new();
    r.push((bash, export));
    r.push((zsh, export2));
    r.push((fish, set));
    r
}

} // verus!
