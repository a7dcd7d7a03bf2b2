//! The command set: which commands there are, what each depends on, and
//! whether the set holds together.
//!
//! A set is accepted when its names are distinct, no output is declared
//! twice, every dependency names a command of the set, every file a
//! command asks for is an output of some command, and no command depends on
//! itself, directly or through others.

use crate::client_commands::ConfigureSmelt;
use crate::commands::{dependency_name, Command, CommandView, TargetType};
use crate::dag::{acyclic, in_range, is_layout, lemma_edges_view, topological_order};
use crate::error::{SmeltErr, SmeltErrView};
use crate::paths::CommandDefPath;
use crate::scheduler::{wanted, Budget, Invocation, NodeState, TraceEvent};
use crate::text::{decimal, decimal_string, lowercased, same_text};
use std::sync::Arc;
use vstd::prelude::*;
use vstd::string::*;

verus! {

/// A command of the set, shared by all who refer to it.
#[derive(Debug, PartialEq, Eq, Hash)]
pub struct CommandRef(pub Arc<Command>);

/// A command as a client asked for it.
#[derive(Debug, PartialEq, Eq, Hash)]
pub struct QueryCommandRef(pub Arc<Command>);

/// The key that finds a command by its name.
#[derive(Debug, PartialEq, Eq, Hash)]
pub struct LookupCommand(pub String);

/// The key that finds the command which makes a file.
#[derive(Debug, PartialEq, Eq, Hash)]
pub struct LookupFileMaker(pub CommandDefPath);

impl View for CommandRef {
    type V = CommandView;

    open spec fn view(&self) -> CommandView {
        self.0@
    }
}

impl CommandRef {
    pub fn new(command: Command) -> (out: Self)
        ensures
            out@ == command@,
    {
        CommandRef(Arc::new(command))
    }

    /// The command referred to.
    pub fn command(&self) -> (out: &Command)
        ensures
            out@ == self@,
    {
        &self.0
    }
}

impl Clone for CommandRef {
    fn clone(&self) -> (out: Self)
        ensures
            out@ == self@,
    {
        CommandRef(self.0.clone())
    }
}

impl View for QueryCommandRef {
    type V = CommandView;

    open spec fn view(&self) -> CommandView {
        self.0@
    }
}

impl QueryCommandRef {
    /// The query for the command that `command` refers to.
    pub fn from_ref(command: CommandRef) -> (out: Self)
        ensures
            out@ == command@,
    {
        QueryCommandRef(command.0)
    }

    /// The command that was asked for.
    pub fn into_ref(self) -> (out: CommandRef)
        ensures
            out@ == self@,
    {
        CommandRef(self.0)
    }
}

impl LookupCommand {
    pub fn from_str_ref(strref: &str) -> (out: Self)
        ensures
            out.0@ == strref@,
    {
        Self(String::from_str(strref))
    }

    /// The error that says that no command has this name.
    pub fn into_error(self) -> (out: SmeltErr)
        ensures
            out@ == (SmeltErrView::MissingCommandDependency { missing_dep_name: self.0@ }),
    {
        SmeltErr::MissingCommandDependency { missing_dep_name: self.0 }
    }
}

impl LookupFileMaker {
    pub fn from_ref(strref: &CommandDefPath) -> (out: Self)
        ensures
            out.0@ == strref@,
    {
        Self(strref.clone())
    }

    pub fn from_str_ref(strref: &str) -> (out: Self)
        ensures
            out.0@ == strref@,
    {
        Self(CommandDefPath::new(String::from_str(strref)))
    }

    /// The error that says that no command makes this file.
    pub fn into_error(self) -> (out: SmeltErr)
        ensures
            out@ == (SmeltErrView::MissingFileDependency { missing_file_name: self.0@ }),
    {
        SmeltErr::MissingFileDependency { missing_file_name: self.0.0 }
    }
}

/// No two commands have the same name.
pub open spec fn names_unique(cmds: Seq<CommandView>) -> bool {
    forall|i: int, j: int| 0 <= i < j < cmds.len() ==> cmds[i].name != cmds[j].name
}

/// No output is declared twice, by two commands or by one.
pub open spec fn outputs_unique(cmds: Seq<CommandView>) -> bool {
    forall|i: int, a: int, j: int, b: int|
        0 <= i < cmds.len() && 0 <= a < cmds[i].outputs.len() && 0 <= j < cmds.len() && 0 <= b
            < cmds[j].outputs.len() && (i != j || a != b) ==> cmds[i].outputs[a]
            != cmds[j].outputs[b]
}

/// An earlier command has the name of command `i`.
pub open spec fn name_repeats(cmds: Seq<CommandView>, i: int) -> bool {
    exists|j: int| 0 <= j < i && cmds[j].name == cmds[i].name
}

/// Output `a` of command `i` was declared before: by an earlier command, or
/// earlier by the same command.
pub open spec fn output_repeats(cmds: Seq<CommandView>, i: int, a: int) -> bool {
    exists|j: int, b: int|
        0 <= j <= i && 0 <= b < cmds[j].outputs.len() && (j < i || b < a) && cmds[j].outputs[b]
            == cmds[i].outputs[a]
}

/// What command `i` declares at place `a` was declared before.  Place -1 is
/// the command's name, place `a >= 0` its output `a`.
pub open spec fn repeats(cmds: Seq<CommandView>, i: int, a: int) -> bool {
    if a < 0 {
        name_repeats(cmds, i)
    } else {
        output_repeats(cmds, i, a)
    }
}

/// Place `(j, b)` comes before place `(i, a)` when the commands are read
/// in order, each one's name first and then its outputs.
pub open spec fn comes_before(j: int, b: int, i: int, a: int) -> bool {
    j < i || (j == i && b < a)
}

/// Nothing that is declared before place `(i, a)` was declared before.
pub open spec fn clean_before(cmds: Seq<CommandView>, i: int, a: int) -> bool {
    forall|j: int, b: int|
        0 <= j < cmds.len() && -1 <= b < cmds[j].outputs.len() && comes_before(j, b, i, a)
            ==> !#[trigger] repeats(cmds, j, b)
}

/// Place `(i, a)` is the first at which something is declared again.
pub open spec fn first_repeat(cmds: Seq<CommandView>, i: int, a: int) -> bool {
    &&& 0 <= i < cmds.len()
    &&& -1 <= a < cmds[i].outputs.len()
    &&& repeats(cmds, i, a)
    &&& clean_before(cmds, i, a)
}

/// The error for what is declared again at place `(i, a)`.
pub open spec fn repeat_error(cmds: Seq<CommandView>, i: int, a: int) -> SmeltErrView {
    if a < 0 {
        SmeltErrView::DuplicateCommandName { name: cmds[i].name }
    } else {
        SmeltErrView::DuplicateOutput { output: cmds[i].outputs[a] }
    }
}

/// Nothing is declared twice in the whole set.
pub open spec fn all_clean(cmds: Seq<CommandView>) -> bool {
    clean_before(cmds, cmds.len() as int, -1)
}

/// Output uniqueness.  In a set in which nothing is declared again, no two
/// commands have the same name and no two outputs are the same; and the
/// other way round.
pub proof fn law_clean_is_unique(cmds: Seq<CommandView>)
    ensures
        all_clean(cmds) <==> names_unique(cmds) && outputs_unique(cmds),
{
    if all_clean(cmds) {
        assert forall|i: int, j: int| 0 <= i < j < cmds.len() implies cmds[i].name
            != cmds[j].name by {
            assert(!repeats(cmds, j, -1));
        }
        assert forall|i: int, a: int, j: int, b: int|
            0 <= i < cmds.len() && 0 <= a < cmds[i].outputs.len() && 0 <= j < cmds.len() && 0 <= b
                < cmds[j].outputs.len() && (i != j || a != b) implies cmds[i].outputs[a]
            != cmds[j].outputs[b] by {
            if comes_before(i, a, j, b) {
                assert(!repeats(cmds, j, b));
            } else {
                assert(comes_before(j, b, i, a));
                assert(!repeats(cmds, i, a));
            }
        }
    }
    if names_unique(cmds) && outputs_unique(cmds) {
        assert forall|j: int, b: int|
            0 <= j < cmds.len() && -1 <= b < cmds[j].outputs.len() && comes_before(
                j,
                b,
                cmds.len() as int,
                -1,
            ) implies !#[trigger] repeats(cmds, j, b) by {}
    }
}

/// Whether an earlier command has the name of command `i`.
fn name_seen_before(commands: &Vec<Command>, i: usize) -> (b: bool)
    requires
        i < commands.len(),
    ensures
        b == name_repeats(commands.deep_view(), i as int),
{
    let ghost cmds = commands.deep_view();
    let mut j: usize = 0;
    while j < i
        invariant
            j <= i < commands.len(),
            cmds == commands.deep_view(),
            forall|x: int| 0 <= x < j ==> cmds[x].name != cmds[i as int].name,
        decreases i - j,
    {
        if commands[j].name == commands[i].name {
            assert(cmds[j as int].name == cmds[i as int].name);
            return true;
        }
        j += 1;
    }
    false
}

/// Whether output `a` of command `i` was declared before.
fn output_seen_before(commands: &Vec<Command>, i: usize, a: usize) -> (b: bool)
    requires
        i < commands.len(),
        a < commands[i as int].outputs.len(),
    ensures
        b == output_repeats(commands.deep_view(), i as int, a as int),
{
    let ghost cmds = commands.deep_view();
    let mut j: usize = 0;
    while j <= i
        invariant
            j <= i + 1,
            i < commands.len(),
            a < commands[i as int].outputs.len(),
            cmds == commands.deep_view(),
            forall|x: int, y: int|
                0 <= x < j && 0 <= y < cmds[x].outputs.len() && (x < i || y < a)
                    ==> cmds[x].outputs[y] != cmds[i as int].outputs[a as int],
        decreases i + 1 - j,
    {
        let limit = if j == i {
            a
        } else {
            commands[j].outputs.len()
        };
        let mut k: usize = 0;
        while k < limit
            invariant
                k <= limit,
                j <= i < commands.len(),
                a < commands[i as int].outputs.len(),
                limit <= commands[j as int].outputs.len(),
                limit == if j == i {
                    a
                } else {
                    commands[j as int].outputs.len()
                },
                cmds == commands.deep_view(),
                forall|y: int|
                    0 <= y < k ==> cmds[j as int].outputs[y] != cmds[i as int].outputs[a as int],
            decreases limit - k,
        {
            if commands[j].outputs[k].0 == commands[i].outputs[a].0 {
                assert(cmds[j as int].outputs[k as int] == cmds[i as int].outputs[a as int]);
                return true;
            }
            k += 1;
        }
        j += 1;
    }
    false
}

/// Reads the commands in order, each one's name first and then its
/// outputs, and reports the first name or output that was declared before.
pub fn check_unique_outputs_and_names(commands: &Vec<Command>) -> (out: Result<(), SmeltErr>)
    ensures
        match out {
            Ok(()) => all_clean(commands.deep_view()),
            Err(e) => exists|i: int, a: int|
                first_repeat(commands.deep_view(), i, a) && e@ == repeat_error(
                    commands.deep_view(),
                    i,
                    a,
                ),
        },
{
    let ghost cmds = commands.deep_view();
    let mut i: usize = 0;
    while i < commands.len()
        invariant
            i <= commands.len(),
            cmds == commands.deep_view(),
            clean_before(cmds, i as int, -1),
        decreases commands.len() - i,
    {
        if name_seen_before(commands, i) {
            assert(first_repeat(cmds, i as int, -1));
            return Err(SmeltErr::DuplicateCommandName { name: commands[i].name.clone() });
        }
        let mut a: usize = 0;
        while a < commands[i].outputs.len()
            invariant
                i < commands.len(),
                a <= commands[i as int].outputs.len(),
                cmds == commands.deep_view(),
                clean_before(cmds, i as int, a as int),
            decreases commands[i as int].outputs.len() - a,
        {
            if output_seen_before(commands, i, a) {
                assert(first_repeat(cmds, i as int, a as int));
                return Err(SmeltErr::DuplicateOutput { output: commands[i].outputs[a].clone() });
            }
            a += 1;
        }
        assert(clean_before(cmds, i as int + 1, -1)) by {
            assert forall|j: int, b: int|
                0 <= j < cmds.len() && -1 <= b < cmds[j].outputs.len() && comes_before(
                    j,
                    b,
                    i as int + 1,
                    -1,
                ) implies !#[trigger] repeats(cmds, j, b) by {
                assert(comes_before(j, b, i as int, a as int));
            }
        }
        i += 1;
    }
    Ok(())
}

/// The index of the first command at or after `from` that is called
/// `name`, or the number of commands if there is none.
pub open spec fn name_index_from(cmds: Seq<CommandView>, name: Seq<char>, from: int) -> int
    decreases cmds.len() - from,
{
    if from < 0 || from >= cmds.len() {
        cmds.len() as int
    } else if cmds[from].name == name {
        from
    } else {
        name_index_from(cmds, name, from + 1)
    }
}

/// The index of the command called `name`, or the number of commands if
/// there is none.
pub open spec fn name_index(cmds: Seq<CommandView>, name: Seq<char>) -> int {
    name_index_from(cmds, name, 0)
}

/// The command declares `path` as an output.
pub open spec fn has_output(cmd: CommandView, path: Seq<char>) -> bool {
    exists|b: int| 0 <= b < cmd.outputs.len() && cmd.outputs[b] == path
}

/// The index of the first command at or after `from` that declares `path`
/// as an output, or the number of commands if there is none.
pub open spec fn producer_index_from(cmds: Seq<CommandView>, path: Seq<char>, from: int) -> int
    decreases cmds.len() - from,
{
    if from < 0 || from >= cmds.len() {
        cmds.len() as int
    } else if has_output(cmds[from], path) {
        from
    } else {
        producer_index_from(cmds, path, from + 1)
    }
}

/// The index of the command that makes `path`, or the number of commands
/// if there is none.
pub open spec fn producer_index(cmds: Seq<CommandView>, path: Seq<char>) -> int {
    producer_index_from(cmds, path, 0)
}

/// How many commands and files command `i` refers to.
pub open spec fn reference_count(cmds: Seq<CommandView>, i: int) -> int {
    (cmds[i].dependencies.len() + cmds[i].dependent_files.len()) as int
}

/// What reference `k` of command `i` leads to: the command named by a
/// dependency, or the command that makes a file asked for.  The
/// dependencies come first, the files after them.  A reference that leads
/// nowhere gives the number of commands.
pub open spec fn reference_target(cmds: Seq<CommandView>, i: int, k: int) -> int {
    if k < cmds[i].dependencies.len() {
        name_index(cmds, dependency_name(cmds[i].dependencies[k]))
    } else {
        producer_index(cmds, cmds[i].dependent_files[k - cmds[i].dependencies.len()])
    }
}

/// The error for reference `k` of command `i` when it leads nowhere.
pub open spec fn reference_error(cmds: Seq<CommandView>, i: int, k: int) -> SmeltErrView {
    if k < cmds[i].dependencies.len() {
        SmeltErrView::MissingCommandDependency {
            missing_dep_name: dependency_name(cmds[i].dependencies[k]),
        }
    } else {
        SmeltErrView::MissingFileDependency {
            missing_file_name: cmds[i].dependent_files[k - cmds[i].dependencies.len()],
        }
    }
}

/// Every reference of command `i` leads to a command of the set.
pub open spec fn resolved_at(cmds: Seq<CommandView>, i: int) -> bool {
    forall|k: int|
        0 <= k < reference_count(cmds, i) ==> 0 <= #[trigger] reference_target(cmds, i, k)
            < cmds.len()
}

/// Every reference of every command leads to a command of the set.
pub open spec fn resolves(cmds: Seq<CommandView>) -> bool {
    forall|i: int| 0 <= i < cmds.len() ==> #[trigger] resolved_at(cmds, i)
}

/// The errors for those of the first `upto` references of command `i` that
/// lead nowhere, in order.
pub open spec fn missing_at(cmds: Seq<CommandView>, i: int, upto: int) -> Seq<SmeltErrView>
    decreases upto,
{
    if upto <= 0 {
        Seq::empty()
    } else {
        let rest = missing_at(cmds, i, upto - 1);
        if reference_target(cmds, i, upto - 1) < cmds.len() {
            rest
        } else {
            rest.push(reference_error(cmds, i, upto - 1))
        }
    }
}

/// The errors for the references of the first `upto` commands that lead
/// nowhere, command by command.
pub open spec fn missing_upto(cmds: Seq<CommandView>, upto: int) -> Seq<SmeltErrView>
    decreases upto,
{
    if upto <= 0 {
        Seq::empty()
    } else {
        missing_upto(cmds, upto - 1) + missing_at(
            cmds,
            upto - 1,
            reference_count(cmds, upto - 1),
        )
    }
}

/// The errors for all references that lead nowhere.
pub open spec fn missing(cmds: Seq<CommandView>) -> Seq<SmeltErrView> {
    missing_upto(cmds, cmds.len() as int)
}

/// The dependencies of each command as indices into the set.
pub open spec fn reference_edges(cmds: Seq<CommandView>, edges: Seq<Seq<usize>>) -> bool {
    &&& edges.len() == cmds.len()
    &&& forall|i: int|
        0 <= i < cmds.len() ==> (#[trigger] edges[i]).len() == reference_count(cmds, i)
    &&& forall|i: int, k: int|
        0 <= i < cmds.len() && 0 <= k < edges[i].len() ==> (#[trigger] edges[i][k])
            == reference_target(cmds, i, k)
}

pub proof fn lemma_name_index(cmds: Seq<CommandView>, name: Seq<char>, from: int)
    requires
        0 <= from <= cmds.len(),
    ensures
        from <= name_index_from(cmds, name, from) <= cmds.len(),
        name_index_from(cmds, name, from) < cmds.len() ==> cmds[name_index_from(
            cmds,
            name,
            from,
        )].name == name,
        forall|j: int| from <= j < name_index_from(cmds, name, from) ==> cmds[j].name != name,
    decreases cmds.len() - from,
{
    if from < cmds.len() && cmds[from].name != name {
        lemma_name_index(cmds, name, from + 1);
    }
}

pub proof fn lemma_producer_index(cmds: Seq<CommandView>, path: Seq<char>, from: int)
    requires
        0 <= from <= cmds.len(),
    ensures
        from <= producer_index_from(cmds, path, from) <= cmds.len(),
        producer_index_from(cmds, path, from) < cmds.len() ==> has_output(
            cmds[producer_index_from(cmds, path, from)],
            path,
        ),
        forall|j: int|
            from <= j < producer_index_from(cmds, path, from) ==> !has_output(cmds[j], path),
    decreases cmds.len() - from,
{
    if from < cmds.len() && !has_output(cmds[from], path) {
        lemma_producer_index(cmds, path, from + 1);
    }
}

/// Dependencies resolve.  In a set whose references all lead somewhere,
/// every name among the dependencies of a command is the name of a command
/// of the set.
pub proof fn law_dependencies_resolve(cmds: Seq<CommandView>, i: int, k: int)
    requires
        resolves(cmds),
        0 <= i < cmds.len(),
        0 <= k < cmds[i].dependencies.len(),
    ensures
        exists|j: int|
            0 <= j < cmds.len() && cmds[j].name == dependency_name(cmds[i].dependencies[k]),
{
    assert(resolved_at(cmds, i));
    assert(0 <= reference_target(cmds, i, k) < cmds.len());
    let name = dependency_name(cmds[i].dependencies[k]);
    lemma_name_index(cmds, name, 0);
    let j = name_index(cmds, name);
    assert(0 <= j < cmds.len() && cmds[j].name == name);
}

/// Files resolve.  In a set whose references all lead somewhere, every file
/// that a command asks for is among the outputs of a command of the set.
pub proof fn law_files_resolve(cmds: Seq<CommandView>, i: int, k: int)
    requires
        resolves(cmds),
        0 <= i < cmds.len(),
        0 <= k < cmds[i].dependent_files.len(),
    ensures
        exists|j: int, b: int|
            0 <= j < cmds.len() && 0 <= b < cmds[j].outputs.len() && cmds[j].outputs[b]
                == cmds[i].dependent_files[k],
{
    assert(resolved_at(cmds, i));
    let r = k + cmds[i].dependencies.len();
    assert(0 <= reference_target(cmds, i, r) < cmds.len());
    let path = cmds[i].dependent_files[k];
    lemma_producer_index(cmds, path, 0);
    let j = producer_index(cmds, path);
    assert(has_output(cmds[j], path));
    let b = choose|b: int| 0 <= b < cmds[j].outputs.len() && cmds[j].outputs[b] == path;
    assert(0 <= j < cmds.len() && 0 <= b < cmds[j].outputs.len() && cmds[j].outputs[b] == path);
}

/// Finds the command called `name`.
pub fn find_command(commands: &Vec<Command>, name: &str) -> (out: Option<usize>)
    ensures
        match out {
            Some(i) => i < commands.len() && i == name_index(commands.deep_view(), name@),
            None => name_index(commands.deep_view(), name@) == commands.len(),
        },
{
    let ghost cmds = commands.deep_view();
    let mut i: usize = 0;
    while i < commands.len()
        invariant
            i <= commands.len(),
            cmds == commands.deep_view(),
            name_index_from(cmds, name@, i as int) == name_index(cmds, name@),
        decreases commands.len() - i,
    {
        if same_text(commands[i].name.as_str(), name) {
            assert(cmds[i as int].name == name@);
            return Some(i);
        }
        assert(cmds[i as int].name != name@);
        i += 1;
    }
    None
}

/// Whether the command declares `path` as an output.
fn declares_output(command: &Command, path: &str) -> (b: bool)
    ensures
        b == has_output(command@, path@),
{
    let mut k: usize = 0;
    while k < command.outputs.len()
        invariant
            k <= command.outputs.len(),
            forall|y: int| 0 <= y < k ==> command@.outputs[y] != path@,
        decreases command.outputs.len() - k,
    {
        if same_text(command.outputs[k].0.as_str(), path) {
            assert(command@.outputs[k as int] == path@);
            return true;
        }
        k += 1;
    }
    false
}

/// Finds the command that makes `path`.
pub fn find_producer(commands: &Vec<Command>, path: &str) -> (out: Option<usize>)
    ensures
        match out {
            Some(i) => i < commands.len() && i == producer_index(commands.deep_view(), path@),
            None => producer_index(commands.deep_view(), path@) == commands.len(),
        },
{
    let ghost cmds = commands.deep_view();
    let mut i: usize = 0;
    while i < commands.len()
        invariant
            i <= commands.len(),
            cmds == commands.deep_view(),
            producer_index_from(cmds, path@, i as int) == producer_index(cmds, path@),
        decreases commands.len() - i,
    {
        if declares_output(&commands[i], path) {
            assert(cmds[i as int] == commands[i as int]@);
            return Some(i);
        }
        assert(cmds[i as int] == commands[i as int]@);
        i += 1;
    }
    None
}

/// What each reference of command `i` leads to, the dependencies first and
/// the files after them: the index of a command, or an error that names
/// what was not found.
pub fn get_command_deps(commands: &Vec<Command>, i: usize) -> (out: Vec<Result<usize, SmeltErr>>)
    requires
        i < commands.len(),
    ensures
        out.len() == reference_count(commands.deep_view(), i as int),
        forall|k: int|
            0 <= k < out.len() ==> match #[trigger] out[k] {
                Ok(target) => target < commands.len() && target == reference_target(
                    commands.deep_view(),
                    i as int,
                    k,
                ),
                Err(e) => reference_target(commands.deep_view(), i as int, k) == commands.len()
                    && e@ == reference_error(commands.deep_view(), i as int, k),
            },
{
    let ghost cmds = commands.deep_view();
    let command = &commands[i];
    let mut out: Vec<Result<usize, SmeltErr>> = Vec::new();
    let mut k: usize = 0;
    while k < command.dependencies.len()
        invariant
            k <= command.dependencies.len(),
            i < commands.len(),
            command == &commands[i as int],
            cmds == commands.deep_view(),
            out.len() == k,
            forall|x: int|
                0 <= x < k ==> match #[trigger] out[x] {
                    Ok(target) => target < commands.len() && target == reference_target(
                        cmds,
                        i as int,
                        x,
                    ),
                    Err(e) => reference_target(cmds, i as int, x) == commands.len() && e@
                        == reference_error(cmds, i as int, x),
                },
        decreases command.dependencies.len() - k,
    {
        let name = command.dependencies[k].get_command_name();
        assert(cmds[i as int].dependencies[k as int] == command.dependencies[k as int]@);
        let found = match find_command(commands, name) {
            Some(target) => Ok(target),
            None => Err(LookupCommand::from_str_ref(name).into_error()),
        };
        out.push(found);
        k += 1;
    }
    let offset = command.dependencies.len();
    let mut f: usize = 0;
    while f < command.dependent_files.len()
        invariant
            f <= command.dependent_files.len(),
            i < commands.len(),
            command == &commands[i as int],
            cmds == commands.deep_view(),
            offset == command.dependencies.len(),
            out.len() == offset + f,
            forall|x: int|
                0 <= x < offset + f ==> match #[trigger] out[x] {
                    Ok(target) => target < commands.len() && target == reference_target(
                        cmds,
                        i as int,
                        x,
                    ),
                    Err(e) => reference_target(cmds, i as int, x) == commands.len() && e@
                        == reference_error(cmds, i as int, x),
                },
        decreases command.dependent_files.len() - f,
    {
        let file = &command.dependent_files[f];
        assert(cmds[i as int].dependent_files[f as int] == file@);
        let found = match find_producer(commands, file.0.as_str()) {
            Some(target) => Ok(target),
            None => Err(LookupFileMaker::from_ref(file).into_error()),
        };
        out.push(found);
        f += 1;
    }
    out
}

proof fn lemma_missing_of_resolved(cmds: Seq<CommandView>, i: int, upto: int)
    requires
        0 <= i < cmds.len(),
        0 <= upto <= reference_count(cmds, i),
        forall|k: int| 0 <= k < upto ==> #[trigger] reference_target(cmds, i, k) < cmds.len(),
    ensures
        missing_at(cmds, i, upto).len() == 0,
    decreases upto,
{
    if upto > 0 {
        lemma_missing_of_resolved(cmds, i, upto - 1);
        assert(reference_target(cmds, i, upto - 1) < cmds.len());
    }
}

/// Resolves every reference of every command.  Where all of them lead
/// somewhere, the result is the dependencies of each command as indices;
/// else it is the errors for those that lead nowhere, command by command,
/// the dependencies of a command before its files.
pub fn validate_graph(commands: &Vec<Command>) -> (out: Result<Vec<Vec<usize>>, Vec<SmeltErr>>)
    ensures
        match out {
            Ok(edges) => resolves(commands.deep_view()) && missing(commands.deep_view()).len()
                == 0 && reference_edges(commands.deep_view(), edges.deep_view()) && in_range(
                edges.deep_view(),
            ),
            Err(errors) => errors.len() > 0 && errors.deep_view() == missing(commands.deep_view())
                && !resolves(commands.deep_view()),
        },
{
    let ghost cmds = commands.deep_view();
    let n = commands.len();
    let mut edges: Vec<Vec<usize>> = Vec::new();
    let mut errors: Vec<SmeltErr> = Vec::new();
    let ghost mut bad: (int, int) = (0, 0);
    let mut i: usize = 0;
    while i < n
        invariant
            i <= n,
            n == commands.len(),
            cmds == commands.deep_view(),
            errors.deep_view() == missing_upto(cmds, i as int),
            edges.len() == i,
            errors.len() == 0 ==> forall|j: int|
                0 <= j < i ==> (#[trigger] edges[j]).len() == reference_count(cmds, j),
            errors.len() == 0 ==> forall|j: int, k: int|
                0 <= j < i && 0 <= k < edges[j].len() ==> (#[trigger] edges[j][k])
                    == reference_target(cmds, j, k) && edges[j][k] < n,
            errors.len() > 0 ==> 0 <= bad.0 < n && 0 <= bad.1 < reference_count(cmds, bad.0)
                && reference_target(cmds, bad.0, bad.1) == n,
        decreases n - i,
    {
        let refs = get_command_deps(commands, i);
        let mut row: Vec<usize> = Vec::new();
        let ghost before = errors.deep_view();
        let ghost had_errors = errors.len() > 0;
        let mut k: usize = 0;
        while k < refs.len()
            invariant
                k <= refs.len(),
                i < n,
                n == commands.len(),
                cmds == commands.deep_view(),
                refs.len() == reference_count(cmds, i as int),
                forall|x: int|
                    0 <= x < refs.len() ==> match #[trigger] refs[x] {
                        Ok(target) => target < n && target == reference_target(cmds, i as int, x),
                        Err(e) => reference_target(cmds, i as int, x) == n && e@
                            == reference_error(cmds, i as int, x),
                    },
                before == missing_upto(cmds, i as int),
                had_errors == (before.len() > 0),
                errors.deep_view() == before + missing_at(cmds, i as int, k as int),
                errors.len() == before.len() ==> row.len() == k && forall|x: int|
                    0 <= x < k ==> (#[trigger] row[x]) == reference_target(cmds, i as int, x)
                        && row[x] < n,
                errors.len() > 0 ==> 0 <= bad.0 < n && 0 <= bad.1 < reference_count(cmds, bad.0)
                    && reference_target(cmds, bad.0, bad.1) == n,
            decreases refs.len() - k,
        {
            let ghost prior = errors.deep_view();
            let ghost prior_row = row@;
            match &refs[k] {
                Ok(target) => {
                    row.push(*target);
                    assert(errors.deep_view() =~= before + missing_at(cmds, i as int, k as int + 1));
                    proof {
                        if errors.len() == before.len() {
                            assert forall|x: int| 0 <= x < k + 1 implies (#[trigger] row[x])
                                == reference_target(cmds, i as int, x) && row[x] < n by {
                                if x < k {
                                    assert(prior_row[x] == row[x]);
                                }
                            }
                        }
                    }
                },
                Err(e) => {
                    errors.push(e.clone());
                    proof {
                        bad = (i as int, k as int);
                        assert(errors.deep_view() =~= prior.push(e@));
                        assert(errors.deep_view() =~= before + missing_at(
                            cmds,
                            i as int,
                            k as int + 1,
                        ));
                    }
                },
            }
            k += 1;
        }
        let ghost prior_edges = edges@;
        edges.push(row);
        proof {
            assert(errors.deep_view() =~= missing_upto(cmds, i as int + 1));
            if errors.len() == 0 {
                assert(before.len() == 0);
                assert forall|j: int| 0 <= j < i + 1 implies (#[trigger] edges[j]).len()
                    == reference_count(cmds, j) by {
                    if j < i {
                        assert(prior_edges[j] == edges[j]);
                    }
                }
                assert forall|j: int, x: int|
                    0 <= j < i + 1 && 0 <= x < edges[j].len() implies (#[trigger] edges[j][x])
                    == reference_target(cmds, j, x) && edges[j][x] < n by {
                    if j < i {
                        assert(prior_edges[j] == edges[j]);
                    }
                }
            }
        }
        i += 1;
    }
    if errors.len() == 0 {
        proof {
            lemma_edges_view(&edges);
            let e = edges.deep_view();
            assert forall|j: int| 0 <= j < cmds.len() implies #[trigger] resolved_at(cmds, j) by {
                assert(edges[j].len() == reference_count(cmds, j));
                assert forall|x: int| 0 <= x < reference_count(cmds, j) implies 0
                    <= #[trigger] reference_target(cmds, j, x) < cmds.len() by {
                    assert(edges[j][x] == reference_target(cmds, j, x));
                }
            }
            assert forall|j: int| 0 <= j < cmds.len() implies (#[trigger] e[j]).len()
                == reference_count(cmds, j) by {
                assert(edges[j].len() == reference_count(cmds, j));
            }
            assert forall|j: int, x: int|
                0 <= j < cmds.len() && 0 <= x < e[j].len() implies (#[trigger] e[j][x])
                == reference_target(cmds, j, x) by {
                assert(edges[j][x] == reference_target(cmds, j, x));
            }
            assert forall|j: int, x: int| 0 <= j < e.len() && 0 <= x < e[j].len() implies (
            #[trigger] e[j][x]) < e.len() by {
                assert(edges[j][x] < n);
            }
        }
        Ok(edges)
    } else {
        proof {
            if resolves(cmds) {
                assert(resolved_at(cmds, bad.0));
                assert(reference_target(cmds, bad.0, bad.1) < cmds.len());
            }
        }
        Err(errors)
    }
}

/// The permits that a command asking for `num_cpus` processors takes out
/// of a budget of `job_slots`.
pub open spec fn permits_needed(num_cpus: int, job_slots: int) -> int {
    if num_cpus <= job_slots {
        num_cpus
    } else {
        job_slots
    }
}

/// The reason given when references lead nowhere.
pub open spec fn invalid_dependencies(count: nat) -> Seq<char> {
    decimal(count) + " invalid dependencies found"@
}

/// The reason given when a command depends on itself.
pub open spec fn cyclic_dependencies() -> Seq<char> {
    "cyclic dependencies found"@
}

/// The indices of those among the first `upto` commands that have the
/// target type, in order.
pub open spec fn typed_upto(cmds: Seq<CommandView>, tt: TargetType, upto: int) -> Seq<usize>
    decreases upto,
{
    if upto <= 0 {
        Seq::empty()
    } else if cmds[upto - 1].target_type == tt {
        typed_upto(cmds, tt, upto - 1).push((upto - 1) as usize)
    } else {
        typed_upto(cmds, tt, upto - 1)
    }
}

/// The commands, what each depends on, and the engine's configuration.
pub struct CommandGraph {
    all_commands: Vec<Command>,
    edges: Vec<Vec<usize>>,
    order: Vec<usize>,
    rank: Vec<usize>,
    cfg: ConfigureSmelt,
}

impl CommandGraph {
    /// The commands of the set.
    pub closed spec fn commands(&self) -> Seq<CommandView> {
        self.all_commands.deep_view()
    }

    /// The dependencies of each command as indices into the set.
    pub closed spec fn edges(&self) -> Seq<Seq<usize>> {
        self.edges.deep_view()
    }

    /// The configuration.
    pub closed spec fn cfg(&self) -> ConfigureSmelt {
        self.cfg
    }

    /// The set holds together.
    pub closed spec fn wf(&self) -> bool {
        &&& all_clean(self.commands())
        &&& resolves(self.commands())
        &&& reference_edges(self.commands(), self.edges())
        &&& in_range(self.edges())
        &&& is_layout(self.edges(), self.order@, self.rank@)
    }

    /// The permits that each command takes when it runs.
    pub open spec fn permits(&self) -> Seq<u64> {
        Seq::new(
            self.commands().len(),
            |i: int|
                permits_needed(
                    self.commands()[i].runtime.num_cpus,
                    self.cfg().job_slots as int,
                ) as u64,
        )
    }

    /// What holds of every set that was accepted.
    pub proof fn law_accepted_set(&self)
        requires
            self.wf(),
        ensures
            names_unique(self.commands()),
            outputs_unique(self.commands()),
            resolves(self.commands()),
            reference_edges(self.commands(), self.edges()),
            in_range(self.edges()),
            acyclic(self.edges()),
    {
        law_clean_is_unique(self.commands());
        assert(crate::dag::is_ranking(self.edges(), self.rank@));
    }

    /// An engine without commands.
    pub fn new(cfg: ConfigureSmelt) -> (out: Self)
        ensures
            out.wf(),
            out.commands().len() == 0,
            out.cfg() == cfg,
    {
        let out = CommandGraph {
            all_commands: Vec::new(),
            edges: Vec::new(),
            order: Vec::new(),
            rank: Vec::new(),
            cfg,
        };
        proof {
            assert(out.commands() =~= Seq::<CommandView>::empty());
            assert(out.edges() =~= Seq::<Seq<usize>>::empty());
        }
        out
    }

    /// The configuration the engine was made with.
    pub fn get_cfg(&self) -> (out: &ConfigureSmelt)
        ensures
            *out == self.cfg(),
    {
        &self.cfg
    }

    /// How many commands the set holds.
    pub fn len(&self) -> (n: usize)
        ensures
            n == self.commands().len(),
    {
        self.all_commands.len()
    }

    /// The command at `index`.
    pub fn command(&self, index: usize) -> (out: &Command)
        requires
            index < self.commands().len(),
        ensures
            out@ == self.commands()[index as int],
    {
        &self.all_commands[index]
    }

    /// The commands of the set, in the order they were given.
    pub fn all_commands(&self) -> (out: &Vec<Command>)
        ensures
            out.deep_view() == self.commands(),
    {
        &self.all_commands
    }

    /// What `set_commands` answers for the commands, given the set it leaves
    /// behind.
    pub open spec fn set_outcome(
        &self,
        before: &CommandGraph,
        commands: Seq<CommandView>,
        out: Result<(), SmeltErr>,
    ) -> bool {
        match out {
            Ok(()) => {
                &&& self.wf()
                &&& self.commands() == commands
                &&& all_clean(commands)
                &&& resolves(commands)
                &&& acyclic(self.edges())
            },
            Err(e) => {
                &&& *self == *before
                &&& {
                    ||| exists|i: int, a: int|
                        first_repeat(commands, i, a) && e@ == repeat_error(commands, i, a)
                    ||| {
                        &&& all_clean(commands)
                        &&& !resolves(commands)
                        &&& e@ == (SmeltErrView::CommandSettingFailed {
                            reason: invalid_dependencies(missing(commands).len()),
                        })
                    }
                    ||| {
                        &&& all_clean(commands)
                        &&& resolves(commands)
                        &&& exists|edges: Seq<Seq<usize>>|
                            reference_edges(commands, edges) && !acyclic(edges)
                        &&& e@ == (SmeltErrView::CommandSettingFailed {
                            reason: cyclic_dependencies(),
                        })
                    }
                }
            },
        }
    }

    /// Takes a new command set as `set_commands` does, and hands back the
    /// error for every reference that leads nowhere, so that each can be
    /// reported.
    pub fn set_commands_reporting(&mut self, commands: Vec<Command>) -> (out: (
        Result<(), SmeltErr>,
        Vec<SmeltErr>,
    ))
        ensures
            final(self).cfg() == old(self).cfg(),
            final(self).set_outcome(old(self), commands.deep_view(), out.0),
            out.1.deep_view() == if all_clean(commands.deep_view()) {
                missing(commands.deep_view())
            } else {
                Seq::<SmeltErrView>::empty()
            },
    {
        match check_unique_outputs_and_names(&commands) {
            Err(e) => {
                let none: Vec<SmeltErr> = Vec::new();
                proof {
                    assert(none.deep_view() =~= Seq::<SmeltErrView>::empty());
                    let (i, a) = choose|i: int, a: int|
                        first_repeat(commands.deep_view(), i, a) && e@ == repeat_error(
                            commands.deep_view(),
                            i,
                            a,
                        );
                    assert(repeats(commands.deep_view(), i, a));
                    assert(comes_before(i, a, commands.len() as int, -1));
                }
                return (Err(e), none);
            },
            Ok(()) => {},
        }
        match validate_graph(&commands) {
            Err(errors) => {
                let mut reason = decimal_string(errors.len() as u64);
                reason.append(" invalid dependencies found");
                (Err(SmeltErr::CommandSettingFailed { reason }), errors)
            },
            Ok(edges) => {
                let none: Vec<SmeltErr> = Vec::new();
                proof {
                    assert(none.deep_view() =~= Seq::<SmeltErrView>::empty());
                    assert(missing(commands.deep_view()) =~= Seq::<SmeltErrView>::empty());
                }
                match topological_order(&edges) {
                    None => {
                        assert(reference_edges(commands.deep_view(), edges.deep_view()));
                        (
                            Err(
                                SmeltErr::CommandSettingFailed {
                                    reason: String::from_str("cyclic dependencies found"),
                                },
                            ),
                            none,
                        )
                    },
                    Some((order, rank)) => {
                        self.all_commands = commands;
                        self.edges = edges;
                        self.order = order;
                        self.rank = rank;
                        proof {
                            assert(crate::dag::is_ranking(self.edges(), self.rank@));
                        }
                        (Ok(()), none)
                    },
                }
            },
        }
    }

    /// Takes a new command set in place of the old one, if it holds
    /// together: nothing declared twice, every reference leading to a
    /// command, and no command depending on itself.  A set that does not is
    /// rejected and the old one stays.
    pub fn set_commands(&mut self, commands: Vec<Command>) -> (out: Result<(), SmeltErr>)
        ensures
            final(self).cfg() == old(self).cfg(),
            final(self).set_outcome(old(self), commands.deep_view(), out),
    {
        let (out, _) = self.set_commands_reporting(commands);
        out
    }
}

/// A copy of the edges, row by row.
pub fn clone_edges(edges: &Vec<Vec<usize>>) -> (out: Vec<Vec<usize>>)
    ensures
        out.deep_view() == edges.deep_view(),
{
    let mut out: Vec<Vec<usize>> = Vec::new();
    let mut i: usize = 0;
    while i < edges.len()
        invariant
            i <= edges.len(),
            out.len() == i,
            forall|j: int| 0 <= j < i ==> (#[trigger] out[j])@ == edges[j]@,
        decreases edges.len() - i,
    {
        let mut row: Vec<usize> = Vec::new();
        let mut k: usize = 0;
        while k < edges[i].len()
            invariant
                i < edges.len(),
                k <= edges[i as int].len(),
                row@ == edges[i as int]@.take(k as int),
            decreases edges[i as int].len() - k,
        {
            row.push(edges[i][k]);
            assert(row@ =~= edges[i as int]@.take(k as int + 1));
            k += 1;
        }
        assert(edges[i as int]@.take(edges[i as int].len() as int) =~= edges[i as int]@);
        out.push(row);
        i += 1;
    }
    proof {
        lemma_edges_view(&out);
        lemma_edges_view(edges);
        assert(out.deep_view() =~= edges.deep_view());
    }
    out
}

/// An invocation that was begun, with what was asked for.
pub struct Run {
    /// The commands that were asked for, as indices into the set.
    pub targets: Vec<usize>,
    pub invocation: Invocation,
}

impl CommandGraph {
    /// `inv` is an invocation of this set that asks for `targets` and in
    /// which nothing has happened yet.
    pub open spec fn begun(&self, inv: &Invocation, targets: Seq<usize>) -> bool {
        &&& inv.wf()
        &&& !inv.done()
        &&& inv.edges() == self.edges()
        &&& inv.permits() == self.permits()
        &&& inv.job_slots() == self.cfg().job_slots
        &&& inv.held() == 0
        &&& inv.trace() == Seq::<TraceEvent>::empty()
        &&& inv.states().len() == self.commands().len()
        &&& forall|t: int|
            0 <= t < targets.len() ==> (#[trigger] targets[t]) < self.commands().len()
                && inv.states()[targets[t] as int] is Scheduled
        &&& forall|i: int|
            0 <= i < self.commands().len() ==> (#[trigger] inv.states()[i]) == if wanted(
                self.edges(),
                targets,
                i,
            ) {
                NodeState::Scheduled
            } else {
                NodeState::Idle
            }
    }

    /// `inv` is an invocation of this set that was just begun for
    /// `targets` on the budget, which was `before` and is `after`: the
    /// invocation is new in its books and holds nothing, and nothing else
    /// has changed in them.
    pub open spec fn opened(
        &self,
        inv: &Invocation,
        targets: Seq<usize>,
        before: &Budget,
        after: &Budget,
    ) -> bool {
        &&& self.begun(inv, targets)
        &&& inv.shares(after)
        &&& inv.id() == before.ledger().len()
        &&& after.ledger() == before.ledger().push(0)
        &&& after.available() == before.available()
        &&& after.job_slots() == before.job_slots()
    }

    /// The budget is in order and is the engine's: it has as many permits
    /// as the configuration has job slots.
    pub open spec fn budgeted(&self, budget: &Budget) -> bool {
        budget.wf() && budget.job_slots() == self.cfg().job_slots
    }

    /// A budget for the engine: as many permits as the configuration has
    /// job slots, all free.
    pub fn budget(&self) -> (out: Budget)
        ensures
            self.budgeted(&out),
            out.idle(),
            out.ledger().len() == 0,
    {
        Budget::new(self.cfg.job_slots)
    }

    /// Begins an invocation that asks for `targets`: they and all they
    /// depend on wait, every other command is left alone.  The invocation
    /// takes its permits from `budget`.
    pub fn begin(&self, targets: &Vec<usize>, budget: &mut Budget) -> (out: Invocation)
        requires
            self.wf(),
            self.budgeted(old(budget)),
            forall|t: int| 0 <= t < targets.len() ==> (#[trigger] targets[t]) < self.commands().len(),
        ensures
            self.opened(&out, targets@, old(budget), final(budget)),
    {
        let n = self.all_commands.len();
        let job_slots = self.cfg.job_slots;
        let mut permits: Vec<u64> = Vec::new();
        let mut i: usize = 0;
        while i < n
            invariant
                i <= n,
                n == self.all_commands.len(),
                job_slots == self.cfg.job_slots,
                permits.len() == i,
                forall|j: int|
                    0 <= j < i ==> (#[trigger] permits[j]) == permits_needed(
                        self.all_commands[j].runtime.num_cpus as int,
                        job_slots as int,
                    ),
            decreases n - i,
        {
            let cpus = self.all_commands[i].runtime.num_cpus as u64;
            permits.push(
                if cpus <= job_slots {
                    cpus
                } else {
                    job_slots
                },
            );
            i += 1;
        }
        proof {
            assert(permits@ =~= self.permits());
        }
        let edges = clone_edges(&self.edges);
        Invocation::new(edges, &self.order, &self.rank, permits, budget, targets)
    }

    /// Begins an invocation that asks for the command called `test_name`.
    pub fn run_one_test(&self, test_name: &str, budget: &mut Budget) -> (out: Result<
        Run,
        SmeltErr,
    >)
        requires
            self.wf(),
            self.budgeted(old(budget)),
        ensures
            match out {
                Ok(run) => {
                    &&& name_index(self.commands(), test_name@) < self.commands().len()
                    &&& run.targets@ == seq![name_index(self.commands(), test_name@) as usize]
                    &&& self.opened(&run.invocation, run.targets@, old(budget), final(budget))
                },
                Err(e) => {
                    &&& *final(budget) == *old(budget)
                    &&& name_index(self.commands(), test_name@) == self.commands().len()
                    &&& e@ == (SmeltErrView::MissingCommandDependency {
                        missing_dep_name: test_name@,
                    })
                },
            },
    {
        match find_command(&self.all_commands, test_name) {
            None => Err(LookupCommand::from_str_ref(test_name).into_error()),
            Some(index) => {
                let mut targets: Vec<usize> = Vec::new();
                targets.push(index);
                assert(targets@ =~= seq![index]);
                let invocation = self.begin(&targets, budget);
                Ok(Run { targets, invocation })
            },
        }
    }

    /// Begins an invocation that asks for the commands called
    /// `test_names`.  Every name is looked up before anything begins; the
    /// first that no command has is the error.
    pub fn run_many_tests(&self, test_names: &Vec<String>, budget: &mut Budget) -> (out: Result<
        Run,
        SmeltErr,
    >)
        requires
            self.wf(),
            self.budgeted(old(budget)),
        ensures
            match out {
                Ok(run) => {
                    &&& run.targets.len() == test_names.len()
                    &&& forall|k: int|
                        0 <= k < test_names.len() ==> (#[trigger] run.targets[k]) == name_index(
                            self.commands(),
                            test_names[k]@,
                        ) && run.targets[k] < self.commands().len()
                    &&& self.opened(&run.invocation, run.targets@, old(budget), final(budget))
                },
                Err(e) => *final(budget) == *old(budget) && exists|k: int|
                    {
                        &&& 0 <= k < test_names.len()
                        &&& name_index(self.commands(), #[trigger] test_names[k]@)
                            == self.commands().len()
                        &&& forall|j: int|
                            0 <= j < k ==> name_index(self.commands(), #[trigger] test_names[j]@)
                                < self.commands().len()
                        &&& e@ == (SmeltErrView::MissingCommandDependency {
                            missing_dep_name: test_names[k]@,
                        })
                    },
            },
    {
        let mut targets: Vec<usize> = Vec::new();
        let mut k: usize = 0;
        while k < test_names.len()
            invariant
                k <= test_names.len(),
                targets.len() == k,
                *budget == *old(budget),
                forall|j: int|
                    0 <= j < k ==> (#[trigger] targets[j]) == name_index(
                        self.commands(),
                        test_names[j]@,
                    ) && targets[j] < self.commands().len(),
            decreases test_names.len() - k,
        {
            match find_command(&self.all_commands, test_names[k].as_str()) {
                None => {
                    assert forall|j: int| 0 <= j < k implies name_index(
                        self.commands(),
                        #[trigger] test_names[j]@,
                    ) < self.commands().len() by {
                        assert(targets[j] < self.commands().len());
                    }
                    return Err(LookupCommand::from_str_ref(test_names[k].as_str()).into_error());
                },
                Some(index) => {
                    targets.push(index);
                },
            }
            k += 1;
        }
        let invocation = self.begin(&targets, budget);
        Ok(Run { targets, invocation })
    }

    /// The commands of the target type `tt`, in the order of the set.
    pub fn commands_of_type(&self, tt: TargetType) -> (out: Vec<usize>)
        ensures
            out@ == typed_upto(self.commands(), tt, self.commands().len() as int),
            forall|t: int| 0 <= t < out.len() ==> (#[trigger] out[t]) < self.commands().len(),
    {
        let mut out: Vec<usize> = Vec::new();
        let mut i: usize = 0;
        while i < self.all_commands.len()
            invariant
                i <= self.all_commands.len(),
                out@ == typed_upto(self.commands(), tt, i as int),
                forall|t: int| 0 <= t < out.len() ==> (#[trigger] out[t]) < i,
            decreases self.all_commands.len() - i,
        {
            assert(self.commands()[i as int].target_type == self.all_commands[i as int].target_type);
            if self.all_commands[i].target_type == tt {
                out.push(i);
            }
            i += 1;
        }
        out
    }

    /// Begins an invocation that asks for every command whose target type
    /// is the one that `maybe_type` names, whatever the case of its letters.
    pub fn run_all_typed(&self, maybe_type: &str, budget: &mut Budget) -> (out: Result<
        Run,
        SmeltErr,
    >)
        requires
            self.wf(),
            self.budgeted(old(budget)),
        ensures
            match TargetType::named(lowercased(maybe_type@)) {
                Some(tt) => out matches Ok(run) && run.targets@ == typed_upto(
                    self.commands(),
                    tt,
                    self.commands().len() as int,
                ) && self.opened(&run.invocation, run.targets@, old(budget), final(budget)),
                None => *final(budget) == *old(budget) && (out matches Err(e) && e@
                    == SmeltErrView::BadTargetType(maybe_type@)),
            },
    {
        match TargetType::from_str(maybe_type) {
            Err(e) => Err(e),
            Ok(tt) => {
                let targets = self.commands_of_type(tt);
                let invocation = self.begin(&targets, budget);
                Ok(Run { targets, invocation })
            },
        }
    }
}

} // verus!
