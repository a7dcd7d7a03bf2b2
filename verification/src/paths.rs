//! Paths as the engine sees them: plain text with `/` as the separator.
//!
//! A path is absolute when it begins with `/`.  Joining follows the usual
//! rule: an absolute right-hand side replaces the base, anything else is
//! appended with exactly one separator in between.

use crate::text::{after_last, chars_of, concat};
use vstd::prelude::*;
use vstd::string::*;

verus! {

/// Whether the path begins at the root of the filesystem.
pub open spec fn is_absolute(path: Seq<char>) -> bool {
    path.len() > 0 && path[0] == '/'
}

/// `path` adjoined to `base`; an absolute `path` replaces `base`.
pub open spec fn joined_path(base: Seq<char>, path: Seq<char>) -> Seq<char> {
    if is_absolute(path) {
        path
    } else if base.len() > 0 && base.last() != '/' {
        base + seq!['/'] + path
    } else {
        base + path
    }
}

/// `path` as it stands if absolute, else below `base`.
pub open spec fn resolved(base: Seq<char>, path: Seq<char>) -> Seq<char> {
    joined_path(base, path)
}

/// The length of `path[..n]` once trailing separators and trailing `/.` are dropped.
pub open spec fn trimmed_len(path: Seq<char>, n: int) -> int
    decreases n,
{
    if n <= 0 || n > path.len() {
        0
    } else if path[n - 1] == '/' {
        trimmed_len(path, n - 1)
    } else if n >= 2 && path[n - 1] == '.' && path[n - 2] == '/' {
        trimmed_len(path, n - 2)
    } else {
        n
    }
}

/// The last component of `path` before any trailing separators.
pub open spec fn last_component(path: Seq<char>) -> Seq<char> {
    let end = trimmed_len(path, path.len() as int);
    path.subrange(after_last(path, '/', end), end)
}

/// The final component of the path, if it names something: `None` for an
/// empty path, the root, `.` and a path that ends in `..`.
pub open spec fn file_name_of(path: Seq<char>) -> Option<Seq<char>> {
    let name = last_component(path);
    if name.len() == 0 || name == seq!['.'] || name == seq!['.', '.'] {
        None
    } else {
        Some(name)
    }
}

/// Whether the path begins at the root of the filesystem.
pub fn path_is_absolute(path: &str) -> (b: bool)
    ensures
        b == is_absolute(path@),
{
    let cs = chars_of(path);
    cs.len() > 0 && cs[0] == '/'
}

/// Adjoins `path` to `base`; an absolute `path` replaces `base`.
pub fn join_path(base: &str, path: &str) -> (out: String)
    ensures
        out@ == joined_path(base@, path@),
{
    if path_is_absolute(path) {
        return String::from_str(path);
    }
    let bs = chars_of(base);
    if bs.len() > 0 && bs[bs.len() - 1] != '/' {
        proof {
            reveal_strlit("/");
            assert("/"@ =~= seq!['/']);
        }
        let with_sep = concat(base, "/");
        concat(with_sep.as_str(), path)
    } else {
        concat(base, path)
    }
}

/// The final component of the path, if it names something.
pub fn file_name(path: &str) -> (out: Option<String>)
    ensures
        match out {
            Some(name) => file_name_of(path@) == Some(name@),
            None => file_name_of(path@) is None,
        },
{
    let cs = chars_of(path);
    let mut end: usize = cs.len();
    loop
        invariant
            end <= cs.len(),
            cs@ == path@,
            trimmed_len(path@, end as int) == trimmed_len(path@, path@.len() as int),
        ensures
            end <= cs.len(),
            end == trimmed_len(path@, path@.len() as int),
        decreases end,
    {
        if end > 0 && cs[end - 1] == '/' {
            end -= 1;
        } else if end >= 2 && cs[end - 1] == '.' && cs[end - 2] == '/' {
            end -= 2;
        } else {
            break;
        }
    }
    let mut start: usize = end;
    while start > 0 && cs[start - 1] != '/'
        invariant
            start <= end <= cs.len(),
            cs@ == path@,
            after_last(path@, '/', start as int) == after_last(path@, '/', end as int),
        decreases start,
    {
        start -= 1;
    }
    let name = path.substring_char(start, end);
    let ns = chars_of(name);
    if ns.len() == 0 {
        return None;
    }
    if ns.len() == 1 && ns[0] == '.' {
        assert(name@ =~= seq!['.']);
        return None;
    }
    if ns.len() == 2 && ns[0] == '.' && ns[1] == '.' {
        assert(name@ =~= seq!['.', '.']);
        return None;
    }
    proof {
        if name@ == seq!['.'] {
            assert(name@.len() == 1 && name@[0] == '.');
        }
        if name@ == seq!['.', '.'] {
            assert(name@.len() == 2 && name@[0] == '.' && name@[1] == '.');
        }
    }
    Some(String::from_str(name))
}

/// What `Regex::replace_all` gives for the pattern, the text and the
/// replacement, or `None` where the pattern does not compile.
pub uninterp spec fn regex_replaced(
    pattern: Seq<char>,
    input: Seq<char>,
    replacement: Seq<char>,
) -> Option<Seq<char>>;

/// Calls `regex::Regex::new` on `pattern` and, with the compiled expression,
/// `Regex::replace_all` on `input` with `replacement`.  The result is taken to
/// depend on these three texts alone; nothing more is claimed of it.
#[verifier::external_body]
fn regex_replace_all(pattern: &str, input: &str, replacement: &str) -> (out: Option<String>)
    ensures
        match out {
            Some(text) => regex_replaced(pattern@, input@, replacement@) == Some(text@),
            None => regex_replaced(pattern@, input@, replacement@) is None,
        },
{
    match regex::Regex::new(pattern) {
        Ok(re) => Some(re.replace_all(input, replacement).into_owned()),
        Err(_) => None,
    }
}

/// The expression that finds the root token in either spelling.
pub open spec fn smelt_root_pattern() -> Seq<char> {
    "\\$SMELT_ROOT|\\$\\{SMELT_ROOT\\}"@
}

/// `path` with every root token replaced by `smelt_root`; `path` itself
/// should the expression not compile.
pub open spec fn root_substituted(path: Seq<char>, smelt_root: Seq<char>) -> Seq<char> {
    match regex_replaced(smelt_root_pattern(), path, smelt_root) {
        Some(text) => text,
        None => path,
    }
}

/// Replaces `$SMELT_ROOT` and `${SMELT_ROOT}` in `input` by `replacement`.
pub fn replace_smelt_root(input: &str, replacement: &str) -> (out: String)
    ensures
        out@ == root_substituted(input@, replacement@),
{
    match regex_replace_all("\\$SMELT_ROOT|\\$\\{SMELT_ROOT\\}", input, replacement) {
        Some(text) => text,
        None => String::from_str(input),
    }
}

/// A path that is relative to the Smelt root unless it is absolute.
#[derive(Debug, PartialEq, Eq, Hash)]
pub struct SmeltPath(pub String);

/// A path written in a command definition: relative to the command's
/// working directory unless absolute, and free to name the Smelt root by
/// its token.
#[derive(Debug, PartialEq, Eq, Hash)]
pub struct CommandDefPath(pub String);

impl View for SmeltPath {
    type V = Seq<char>;

    open spec fn view(&self) -> Seq<char> {
        self.0@
    }
}

impl DeepView for SmeltPath {
    type V = Seq<char>;

    open spec fn deep_view(&self) -> Seq<char> {
        self.0@
    }
}

impl View for CommandDefPath {
    type V = Seq<char>;

    open spec fn view(&self) -> Seq<char> {
        self.0@
    }
}

impl DeepView for CommandDefPath {
    type V = Seq<char>;

    open spec fn deep_view(&self) -> Seq<char> {
        self.0@
    }
}

impl Clone for SmeltPath {
    fn clone(&self) -> (out: Self)
        ensures
            out == *self,
    {
        SmeltPath(self.0.clone())
    }
}

impl Clone for CommandDefPath {
    fn clone(&self) -> (out: Self)
        ensures
            out == *self,
    {
        CommandDefPath(self.0.clone())
    }
}

impl SmeltPath {
    pub fn new(path: String) -> (out: Self)
        ensures
            out.0 == path,
    {
        Self(path)
    }

    /// The path itself if absolute, else the path below `smelt_root`.
    pub fn to_path(&self, smelt_root: &str) -> (out: String)
        ensures
            out@ == resolved(smelt_root@, self@),
    {
        join_path(smelt_root, self.0.as_str())
    }
}

/// Where a path of a command definition points, once its root tokens have
/// been replaced: the text itself if absolute, else below the command's
/// working directory.
pub fn resolve_substituted(substituted: &str, command_dir_path: &str) -> (out: String)
    ensures
        out@ == resolved(command_dir_path@, substituted@),
{
    join_path(command_dir_path, substituted)
}

impl CommandDefPath {
    pub fn new(path: String) -> (out: Self)
        ensures
            out.0 == path,
    {
        Self(path)
    }

    /// Replaces the root token by `smelt_root`, then resolves the result
    /// against the command's working directory unless it is absolute.
    pub fn to_path(&self, command_dir_path: &str, smelt_root: &str) -> (out: String)
        ensures
            out@ == resolved(command_dir_path@, root_substituted(self@, smelt_root@)),
    {
        let substituted = replace_smelt_root(self.0.as_str(), smelt_root);
        resolve_substituted(substituted.as_str(), command_dir_path)
    }
}

} // verus!
