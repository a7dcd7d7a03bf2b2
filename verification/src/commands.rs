//! Commands: named units of work with a script, dependencies, declared
//! outputs and resource needs.

use crate::digest::{sha1_digest, sha1_of, CommandDefDigest, CommandIdDigest};
use crate::error::{SmeltErr, SmeltErrView};
use crate::paths::{join_path, joined_path, CommandDefPath};
use crate::text::{
    concat, find_char, first_index, lemma_text_before_irreflexive, lemma_text_before_transitive,
    lowercased, same_text, starts_with, text_before, text_less, to_lowercase,
};
use vstd::prelude::*;
use vstd::string::*;
use vstd::utf8::encode_utf8;

verus! {

/// Whether the text has the form `//path:name`.
pub open spec fn is_reference(text: Seq<char>) -> bool {
    "//"@.is_prefix_of(text) && first_index(text, ':') < text.len()
}

/// The name of the command that the text refers to: what follows the first
/// colon of a reference `//path:name`, the whole of any other text.
pub open spec fn dependency_name(text: Seq<char>) -> Seq<char> {
    if is_reference(text) {
        text.subrange(first_index(text, ':') + 1, text.len() as int)
    } else {
        text
    }
}

/// A reference to another command, by name or as `//path:name`.
#[derive(Debug, PartialEq, Eq, Hash)]
pub struct CommandDependency(pub String);

impl View for CommandDependency {
    type V = Seq<char>;

    open spec fn view(&self) -> Seq<char> {
        self.0@
    }
}

impl DeepView for CommandDependency {
    type V = Seq<char>;

    open spec fn deep_view(&self) -> Seq<char> {
        self.0@
    }
}

impl Clone for CommandDependency {
    fn clone(&self) -> (out: Self)
        ensures
            out == *self,
    {
        CommandDependency(self.0.clone())
    }
}

impl CommandDependency {
    pub fn new(text: String) -> (out: Self)
        ensures
            out.0 == text,
    {
        Self(text)
    }

    /// The name of the command referred to.
    pub fn get_command_name(&self) -> (name: &str)
        ensures
            name@ == dependency_name(self@),
    {
        let text = self.0.as_str();
        if starts_with(text, "//") {
            let len = text.unicode_len();
            match find_char(text, ':') {
                Some(colon) => text.substring_char(colon + 1, len),
                None => text,
            }
        } else {
            text
        }
    }
}

#[derive(Debug, PartialEq, Eq, Hash, Clone, Copy, Structural)]
pub enum TargetType {
    Test,
    Stimulus,
    Build,
}

impl TargetType {
    /// The name of the type, in lower case.
    pub open spec fn name(self) -> Seq<char> {
        match self {
            TargetType::Test => "test"@,
            TargetType::Stimulus => "stimulus"@,
            TargetType::Build => "build"@,
        }
    }

    /// The type that a lower-case name stands for.
    pub open spec fn named(lower: Seq<char>) -> Option<TargetType> {
        if lower == "test"@ {
            Some(TargetType::Test)
        } else if lower == "stimulus"@ {
            Some(TargetType::Stimulus)
        } else if lower == "build"@ {
            Some(TargetType::Build)
        } else {
            None
        }
    }

    pub fn as_str(&self) -> (out: &'static str)
        ensures
            out@ == self.name(),
    {
        match self {
            TargetType::Test => "test",
            TargetType::Stimulus => "stimulus",
            TargetType::Build => "build",
        }
    }

    pub fn to_string(&self) -> (out: String)
        ensures
            out@ == self.name(),
    {
        String::from_str(self.as_str())
    }

    /// The type that a name already in lower case stands for.
    pub fn from_lowercase(lower: &str) -> (out: Option<TargetType>)
        ensures
            out == Self::named(lower@),
    {
        if same_text(lower, "test") {
            Some(TargetType::Test)
        } else if same_text(lower, "stimulus") {
            Some(TargetType::Stimulus)
        } else if same_text(lower, "build") {
            Some(TargetType::Build)
        } else {
            None
        }
    }

    /// Reads a type from its name, whatever the case of its letters.
    pub fn from_str(s: &str) -> (out: Result<TargetType, SmeltErr>)
        ensures
            match Self::named(lowercased(s@)) {
                Some(tt) => out == Ok::<TargetType, SmeltErr>(tt),
                None => out is Err && out->Err_0@ == SmeltErrView::BadTargetType(s@),
            },
    {
        let lower = to_lowercase(s);
        match Self::from_lowercase(lower.as_str()) {
            Some(tt) => Ok(tt),
            None => Err(SmeltErr::BadTargetType(String::from_str(s))),
        }
    }
}

#[derive(Debug, PartialEq, Eq, Hash)]
pub struct Runtime {
    pub num_cpus: u32,
    pub max_memory_mb: u32,
    pub timeout: u32,
    /// The environment, as pairs of name and value in the order of their
    /// names; see [`Runtime::wf`].
    pub env: Vec<(String, String)>,
    pub command_run_dir: Option<String>,
}

/// What a [`Runtime`] says, as plain values.
pub struct RuntimeView {
    pub num_cpus: int,
    pub max_memory_mb: int,
    pub timeout: int,
    pub env: Seq<(Seq<char>, Seq<char>)>,
    pub command_run_dir: Option<Seq<char>>,
}

impl DeepView for Runtime {
    type V = RuntimeView;

    open spec fn deep_view(&self) -> RuntimeView {
        RuntimeView {
            num_cpus: self.num_cpus as int,
            max_memory_mb: self.max_memory_mb as int,
            timeout: self.timeout as int,
            env: self.env.deep_view(),
            command_run_dir: self.command_run_dir.deep_view(),
        }
    }
}

impl View for Runtime {
    type V = RuntimeView;

    open spec fn view(&self) -> RuntimeView {
        self.deep_view()
    }
}

/// The names of the environment rise strictly from one pair to the next,
/// as they do in a map that is ordered by its keys.
pub open spec fn env_ordered(env: Seq<(Seq<char>, Seq<char>)>) -> bool {
    forall|i: int, j: int| 0 <= i < j < env.len() ==> text_before(#[trigger] env[i].0, #[trigger] env[j].0)
}

/// In an environment whose names rise strictly no name occurs twice.
pub proof fn law_ordered_names_differ(env: Seq<(Seq<char>, Seq<char>)>, i: int, j: int)
    requires
        env_ordered(env),
        0 <= i < j < env.len(),
    ensures
        env[i].0 != env[j].0,
{
    assert(text_before(env[i].0, env[j].0));
    lemma_text_before_irreflexive(env[i].0);
}

impl Runtime {
    /// The environment is a map in the order of its names: they rise
    /// strictly from one pair to the next, so none occurs twice.
    pub open spec fn wf(&self) -> bool {
        env_ordered(self@.env)
    }

    /// Whether the names of the environment rise strictly, so that the
    /// pairs stand as an ordered map would hand them out.
    pub fn has_ordered_env(&self) -> (b: bool)
        ensures
            b == self.wf(),
    {
        let ghost env = self@.env;
        let mut i: usize = 1;
        while i < self.env.len()
            invariant
                1 <= i,
                env == self@.env,
                env.len() == self.env.len(),
                forall|x: int, y: int|
                    0 <= x < y < i && y < env.len() ==> text_before(
                        #[trigger] env[x].0,
                        #[trigger] env[y].0,
                    ),
            decreases self.env.len() - i,
        {
            assert(env[i as int - 1].0 == self.env[i as int - 1].0@);
            assert(env[i as int].0 == self.env[i as int].0@);
            if !text_less(self.env[i - 1].0.as_str(), self.env[i].0.as_str()) {
                assert(!text_before(env[i as int - 1].0, env[i as int].0));
                return false;
            }
            proof {
                assert forall|x: int, y: int| 0 <= x < y < i + 1 && y < env.len() implies text_before(
                    #[trigger] env[x].0,
                    #[trigger] env[y].0,
                ) by {
                    if y == i as int && x < i as int - 1 {
                        assert(text_before(env[x].0, env[i as int - 1].0));
                        lemma_text_before_transitive(env[x].0, env[i as int - 1].0, env[i as int].0);
                    }
                }
            }
            i += 1;
        }
        true
    }
}

/// A copy of the texts, one by one.
pub fn clone_strings(texts: &Vec<String>) -> (out: Vec<String>)
    ensures
        out.deep_view() == texts.deep_view(),
{
    let mut out: Vec<String> = Vec::new();
    let mut i: usize = 0;
    while i < texts.len()
        invariant
            i <= texts.len(),
            out.len() == i,
            forall|j: int| 0 <= j < i ==> out[j]@ == texts[j]@,
        decreases texts.len() - i,
    {
        out.push(texts[i].clone());
        i += 1;
    }
    assert(out.deep_view() =~= texts.deep_view());
    out
}

/// A copy of the paths, one by one.
pub fn clone_paths(paths: &Vec<CommandDefPath>) -> (out: Vec<CommandDefPath>)
    ensures
        out.deep_view() == paths.deep_view(),
{
    let mut out: Vec<CommandDefPath> = Vec::new();
    let mut i: usize = 0;
    while i < paths.len()
        invariant
            i <= paths.len(),
            out.len() == i,
            forall|j: int| 0 <= j < i ==> out[j]@ == paths[j]@,
        decreases paths.len() - i,
    {
        out.push(paths[i].clone());
        i += 1;
    }
    assert(out.deep_view() =~= paths.deep_view());
    out
}

impl Clone for Runtime {
    fn clone(&self) -> (out: Self)
        ensures
            out@ == self@,
    {
        let mut env: Vec<(String, String)> = Vec::new();
        let mut i: usize = 0;
        while i < self.env.len()
            invariant
                i <= self.env.len(),
                env.len() == i,
                forall|j: int| 0 <= j < i ==> env[j].deep_view() == self.env[j].deep_view(),
            decreases self.env.len() - i,
        {
            env.push((self.env[i].0.clone(), self.env[i].1.clone()));
            i += 1;
        }
        assert(env.deep_view() =~= self.env.deep_view());
        let command_run_dir = match &self.command_run_dir {
            Some(dir) => Some(dir.clone()),
            None => None,
        };
        Runtime {
            num_cpus: self.num_cpus,
            max_memory_mb: self.max_memory_mb,
            timeout: self.timeout,
            env,
            command_run_dir,
        }
    }
}

#[derive(Debug, PartialEq, Eq, Hash)]
pub struct Command {
    pub name: String,
    pub target_type: TargetType,
    pub script: Vec<String>,
    pub dependent_files: Vec<CommandDefPath>,
    pub dependencies: Vec<CommandDependency>,
    pub outputs: Vec<CommandDefPath>,
    pub runtime: Runtime,
    pub working_dir: String,
}

/// What a [`Command`] says, as plain values.
pub struct CommandView {
    pub name: Seq<char>,
    pub target_type: TargetType,
    pub script: Seq<Seq<char>>,
    pub dependent_files: Seq<Seq<char>>,
    pub dependencies: Seq<Seq<char>>,
    pub outputs: Seq<Seq<char>>,
    pub runtime: RuntimeView,
    pub working_dir: Seq<char>,
}

impl DeepView for Command {
    type V = CommandView;

    open spec fn deep_view(&self) -> CommandView {
        CommandView {
            name: self.name@,
            target_type: self.target_type,
            script: self.script.deep_view(),
            dependent_files: self.dependent_files.deep_view(),
            dependencies: self.dependencies.deep_view(),
            outputs: self.outputs.deep_view(),
            runtime: self.runtime@,
            working_dir: self.working_dir@,
        }
    }
}

impl View for Command {
    type V = CommandView;

    open spec fn view(&self) -> CommandView {
        self.deep_view()
    }
}

impl Clone for Command {
    fn clone(&self) -> (out: Self)
        ensures
            out@ == self@,
    {
        let mut dependencies: Vec<CommandDependency> = Vec::new();
        let mut i: usize = 0;
        while i < self.dependencies.len()
            invariant
                i <= self.dependencies.len(),
                dependencies.len() == i,
                forall|j: int| 0 <= j < i ==> dependencies[j]@ == self.dependencies[j]@,
            decreases self.dependencies.len() - i,
        {
            dependencies.push(self.dependencies[i].clone());
            i += 1;
        }
        assert(dependencies.deep_view() =~= self.dependencies.deep_view());
        Command {
            name: self.name.clone(),
            target_type: self.target_type,
            script: clone_strings(&self.script),
            dependent_files: clone_paths(&self.dependent_files),
            dependencies,
            outputs: clone_paths(&self.outputs),
            runtime: self.runtime.clone(),
            working_dir: self.working_dir.clone(),
        }
    }
}

/// The bytes of all the texts, one text after the other.
pub open spec fn all_bytes(texts: Seq<Seq<char>>) -> Seq<u8>
    decreases texts.len(),
{
    if texts.len() == 0 {
        Seq::empty()
    } else {
        all_bytes(texts.drop_last()) + encode_utf8(texts.last())
    }
}

/// The lines that set the environment: `export NAME=VALUE` for each pair.
pub open spec fn env_exports(env: Seq<(Seq<char>, Seq<char>)>) -> Seq<Seq<char>> {
    Seq::new(env.len(), |i: int| "export "@ + env[i].0 + "="@ + env[i].1)
}

impl CommandView {
    /// What the definition digest is taken of: the name, the target type,
    /// the script lines and the dependencies as written.
    pub open spec fn def_digest_input(self) -> Seq<u8> {
        encode_utf8(self.name) + encode_utf8(self.target_type.name()) + all_bytes(self.script)
            + all_bytes(self.dependencies)
    }

    /// The directory that holds what running the command leaves behind.
    pub open spec fn target_root(self, root: Seq<char>) -> Seq<char> {
        joined_path(joined_path(root, "smelt-out"@), self.name)
    }

    /// The environment exports followed by the script lines.
    pub open spec fn script_contents(self) -> Seq<Seq<char>> {
        env_exports(self.runtime.env) + self.script
    }
}

impl Command {
    /// The SHA-1 digest of what the command is defined to do.
    pub fn def_digest(&self) -> (out: CommandDefDigest)
        ensures
            out@ == sha1_of(self@.def_digest_input()),
    {
        let mut data: Vec<u8> = Vec::new();
        data.extend_from_slice(self.name.as_str().as_bytes());
        data.extend_from_slice(self.target_type.as_str().as_bytes());
        let ghost head = data@;
        assert(head =~= encode_utf8(self@.name) + encode_utf8(self@.target_type.name()));
        let mut i: usize = 0;
        while i < self.script.len()
            invariant
                i <= self.script.len(),
                data@ == head + all_bytes(self.script.deep_view().take(i as int)),
            decreases self.script.len() - i,
        {
            proof {
                let after = self.script.deep_view().take(i as int + 1);
                assert(after.drop_last() =~= self.script.deep_view().take(i as int));
                assert(after.last() == self.script[i as int]@);
            }
            data.extend_from_slice(self.script[i].as_str().as_bytes());
            i += 1;
        }
        assert(self.script.deep_view().take(self.script.len() as int) =~= self.script.deep_view());
        let ghost mid = data@;
        let mut k: usize = 0;
        while k < self.dependencies.len()
            invariant
                k <= self.dependencies.len(),
                data@ == mid + all_bytes(self.dependencies.deep_view().take(k as int)),
            decreases self.dependencies.len() - k,
        {
            proof {
                let after = self.dependencies.deep_view().take(k as int + 1);
                assert(after.drop_last() =~= self.dependencies.deep_view().take(k as int));
                assert(after.last() == self.dependencies[k as int]@);
            }
            data.extend_from_slice(self.dependencies[k].0.as_str().as_bytes());
            k += 1;
        }
        assert(self.dependencies.deep_view().take(self.dependencies.len() as int)
            =~= self.dependencies.deep_view());
        assert(data@ =~= self@.def_digest_input());
        CommandDefDigest::new(sha1_digest(data.as_slice()))
    }

    /// The SHA-1 digest of the command's name.
    pub fn id_digest(&self) -> (out: CommandIdDigest)
        ensures
            out@ == sha1_of(encode_utf8(self.name@)),
    {
        CommandIdDigest::new(sha1_digest(self.name.as_str().as_bytes()))
    }

    pub fn script_file() -> (out: &'static str)
        ensures
            out@ == "command.sh"@,
    {
        "command.sh"
    }

    pub fn stderr_file() -> (out: &'static str)
        ensures
            out@ == "command.err"@,
    {
        "command.err"
    }

    pub fn stdout_file() -> (out: &'static str)
        ensures
            out@ == "command.out"@,
    {
        "command.out"
    }

    /// The directory below `root` that holds what running the command
    /// leaves behind.
    pub fn default_target_root(&self, root: &str) -> (out: Result<String, SmeltErr>)
        ensures
            out matches Ok(dir) && dir@ == self@.target_root(root@),
    {
        let base = join_path(root, "smelt-out");
        Ok(join_path(base.as_str(), self.name.as_str()))
    }

    /// The lines of the script with the environment in front: one `export`
    /// for each variable in the order of the names, then the script as
    /// written.  The environment must be in order.
    pub fn script_contents(&self) -> (out: Vec<String>)
        requires
            self.runtime.wf(),
        ensures
            out.deep_view() == self@.script_contents(),
    {
        let mut out: Vec<String> = Vec::new();
        let mut i: usize = 0;
        while i < self.runtime.env.len()
            invariant
                i <= self.runtime.env.len(),
                out.len() == i,
                forall|j: int|
                    0 <= j < i ==> out[j]@ == #[trigger] env_exports(self.runtime.env.deep_view())[j],
            decreases self.runtime.env.len() - i,
        {
            let mut line = concat("export ", self.runtime.env[i].0.as_str());
            line.append("=");
            line.append(self.runtime.env[i].1.as_str());
            out.push(line);
            i += 1;
        }
        let ghost exports = env_exports(self.runtime.env.deep_view());
        let mut k: usize = 0;
        while k < self.script.len()
            invariant
                k <= self.script.len(),
                exports == env_exports(self.runtime.env.deep_view()),
                out.len() == exports.len() + k,
                forall|j: int| 0 <= j < exports.len() ==> out[j]@ == exports[j],
                forall|j: int| 0 <= j < k ==> out[exports.len() + j]@ == self.script[j]@,
            decreases self.script.len() - k,
        {
            out.push(self.script[k].clone());
            k += 1;
        }
        assert(out.deep_view() =~= self@.script_contents());
        out
    }
}

/// A script and the scripts it builds on.
#[derive(Debug, PartialEq, Eq, Hash)]
pub struct CommandScript {
    pub script: Vec<String>,
    pub deps: Vec<CommandScript>,
}

} // verus!
