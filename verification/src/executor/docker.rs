//! The docker executor: the command runs in a container made for it.
//!
//! Here stands what the executor decides: how the container is set up,
//! what it is called, which of its log records are lines of the command,
//! and what its exit says.  Talking to the container runtime is left to the
//! caller.

use crate::client_commands::{CfgDocker, CfgDockerView, RunMode, Ulimit, UlimitView};
use crate::commands::{Command, CommandView};
use crate::error::{SmeltErr, SmeltErrView};
use crate::executor::common::{get_target_root, target_root_of};
use crate::text::{concat, join, joined, signed_decimal, signed_decimal_string};
use rand::Rng;
use vstd::prelude::*;
use vstd::string::*;
use vstd::utf8::{decode_utf8, valid_utf8};

verus! {

pub struct DockerExecutor {
    /// The image every container is made from.
    pub image_name: String,
    /// Host path and container path of each mount beside the Smelt root.
    pub additional_mounts: Vec<(String, String)>,
    pub ulimits: Vec<Ulimit>,
    pub mac_address: Option<String>,
    pub run_mode: RunMode,
    /// The directory on the host below which each command's artifacts go.
    pub artifact_bind_directory: String,
}

/// How a container is to be made.
#[derive(Debug, PartialEq, Eq)]
pub struct ContainerConfig {
    pub image: String,
    pub working_dir: String,
    pub cmd: Vec<String>,
    pub env: Vec<String>,
    pub mac_address: Option<String>,
    pub binds: Vec<String>,
    pub ulimits: Vec<Ulimit>,
}

/// What a [`ContainerConfig`] says, as plain values.
pub struct ContainerConfigView {
    pub image: Seq<char>,
    pub working_dir: Seq<char>,
    pub cmd: Seq<Seq<char>>,
    pub env: Seq<Seq<char>>,
    pub mac_address: Option<Seq<char>>,
    pub binds: Seq<Seq<char>>,
    pub ulimits: Seq<UlimitView>,
}

impl View for ContainerConfig {
    type V = ContainerConfigView;

    open spec fn view(&self) -> ContainerConfigView {
        ContainerConfigView {
            image: self.image@,
            working_dir: self.working_dir@,
            cmd: self.cmd.deep_view(),
            env: self.env.deep_view(),
            mac_address: self.mac_address.deep_view(),
            binds: self.binds.deep_view(),
            ulimits: self.ulimits.deep_view(),
        }
    }
}

/// What the container runs.  With the root mounted it is the prepared
/// script; else one shell command makes the target root and then runs the
/// script lines, each only if the one before it succeeded.
pub open spec fn container_cmd(
    mode: RunMode,
    smelt_root: Seq<char>,
    command: CommandView,
    script_file: Seq<char>,
) -> Seq<Seq<char>> {
    match mode {
        RunMode::Local => seq!["bash"@, script_file],
        RunMode::Remote => seq![
            "bash"@,
            "-c"@,
            joined(
                seq!["mkdir -p "@ + target_root_of(smelt_root, command.name)] + command.script,
                " && "@,
            ),
        ],
    }
}

/// The mount that takes the artifacts of the command out of the container.
pub open spec fn artifact_bind(directory: Seq<char>, command_name: Seq<char>) -> Seq<char> {
    directory + "/"@ + command_name + ":"@ + "/tmp/artifacts/"@
}

/// Each mount written as `host:container`.
pub open spec fn mount_binds(mounts: Seq<(Seq<char>, Seq<char>)>) -> Seq<Seq<char>> {
    Seq::new(mounts.len(), |i: int| mounts[i].0 + ":"@ + mounts[i].1)
}

/// What is mounted into the container.  With the root mounted these are
/// the root at its own path, the artifacts, and every further mount; else
/// only the artifacts.
pub open spec fn container_binds(
    mode: RunMode,
    smelt_root: Seq<char>,
    directory: Seq<char>,
    command_name: Seq<char>,
    mounts: Seq<(Seq<char>, Seq<char>)>,
) -> Seq<Seq<char>> {
    match mode {
        RunMode::Local => seq![
            smelt_root + ":"@ + smelt_root,
            artifact_bind(directory, command_name),
        ] + mount_binds(mounts),
        RunMode::Remote => seq![artifact_bind(directory, command_name)],
    }
}

/// The environment of the container.
pub open spec fn container_env(smelt_root: Seq<char>, command_name: Seq<char>) -> Seq<Seq<char>> {
    seq![
        "SMELT_ROOT="@ + smelt_root,
        "TARGET_ROOT="@ + target_root_of(smelt_root, command_name),
    ]
}

/// A letter of the English alphabet or a digit.
pub open spec fn is_alphanumeric(c: char) -> bool {
    ('a' <= c <= 'z') || ('A' <= c <= 'Z') || ('0' <= c <= '9')
}

/// Calls `Rng::sample_iter` of the `rand` crate on the thread's generator
/// with the distribution `Alphanumeric`, and collects `len` of what it
/// gives.  Each is a letter `a-z`, `A-Z` or a digit; which ones is left to
/// chance.
#[verifier::external_body]
fn random_alphanumeric(len: usize) -> (out: String)
    ensures
        out@.len() == len,
        forall|i: int| 0 <= i < out@.len() ==> is_alphanumeric(#[trigger] out@[i]),
{
    rand::thread_rng().sample_iter(&rand::distributions::Alphanumeric).take(len).map(
        char::from,
    ).collect()
}

/// Calls `String::from_utf8`: the text that the bytes encode, if they are
/// valid UTF-8.
#[verifier::external_body]
pub(crate) fn string_from_utf8(bytes: Vec<u8>) -> (out: Option<String>)
    ensures
        match out {
            Some(text) => valid_utf8(bytes@) && text@ == decode_utf8(bytes@),
            None => !valid_utf8(bytes@),
        },
{
    String::from_utf8(bytes).ok()
}

/// A record of the container's log.
#[derive(Debug, PartialEq, Eq)]
pub enum LogOutput {
    StdErr { message: Vec<u8> },
    StdOut { message: Vec<u8> },
    StdIn { message: Vec<u8> },
    Console { message: Vec<u8> },
}

/// How waiting for the container to exit ended.
#[derive(Debug, PartialEq, Eq, Clone, Copy, Structural)]
pub enum WaitOutcome {
    /// The runtime reported the exit with its status code.
    Exited { status_code: i64 },
    /// The runtime reported the wait as failed and gave a code: this is how
    /// it reports an exit with a code other than 0.
    WaitError { code: i64 },
    /// The runtime failed in another way.
    Failed,
    /// The runtime did not answer.
    NoAnswer,
}

impl WaitOutcome {
    /// The status of the command: the code the runtime gave, and 1 where it
    /// gave none.
    pub open spec fn status(self) -> int {
        match self {
            WaitOutcome::Exited { status_code } => status_code as int,
            WaitOutcome::WaitError { code } => code as int,
            WaitOutcome::Failed => 1,
            WaitOutcome::NoAnswer => 1,
        }
    }

    pub fn status_code(&self) -> (out: i64)
        ensures
            out == self.status(),
    {
        match self {
            WaitOutcome::Exited { status_code } => *status_code,
            WaitOutcome::WaitError { code } => *code,
            WaitOutcome::Failed => 1,
            WaitOutcome::NoAnswer => 1,
        }
    }

    /// The exit code of the command.  The status must fit an exit code.
    pub fn exit_code(&self) -> (out: i32)
        requires
            i32::MIN <= self.status() <= i32::MAX,
        ensures
            out == self.status(),
    {
        self.status_code() as i32
    }
}

/// The line of the command that a log record holds: what the command wrote
/// to its output or its error stream, if it is valid UTF-8.  Records of the
/// console and of the input are not the command's.
pub fn log_line(output: LogOutput) -> (out: Option<String>)
    ensures
        match output {
            LogOutput::StdOut { message } | LogOutput::StdErr { message } => if valid_utf8(
                message@,
            ) {
                out matches Some(line) && line@ == decode_utf8(message@)
            } else {
                out is None
            },
            _ => out is None,
        },
{
    match output {
        LogOutput::StdOut { message } => string_from_utf8(message),
        LogOutput::StdErr { message } => string_from_utf8(message),
        LogOutput::StdIn { .. } => None,
        LogOutput::Console { .. } => None,
    }
}

/// The name of a container: the command's name, an underscore, and a suffix.
pub fn container_name(command_name: &str, suffix: &str) -> (out: String)
    ensures
        out@ == command_name@ + "_"@ + suffix@,
{
    let mut out = concat(command_name, "_");
    out.append(suffix);
    out
}

/// How long the random suffix of a container's name is.
pub const SUFFIX_LENGTH: usize = 11;

/// A name for a new container of the command: the command's name, an
/// underscore, and eleven letters and digits left to chance, so that a
/// second container of the same command gets a name of its own.
pub fn fresh_container_name(command_name: &str) -> (out: String)
    ensures
        exists|suffix: Seq<char>|
            {
                &&& suffix.len() == 11
                &&& (forall|i: int| 0 <= i < suffix.len() ==> is_alphanumeric(#[trigger] suffix[i]))
                &&& out@ == command_name@ + "_"@ + suffix
            },
{
    let suffix = random_alphanumeric(SUFFIX_LENGTH);
    container_name(command_name, suffix.as_str())
}

impl DockerExecutor {
    /// What the executor was configured with, read back.
    pub open spec fn settings(&self) -> CfgDockerView {
        CfgDockerView {
            image_name: self.image_name@,
            additional_mounts: self.additional_mounts.deep_view(),
            ulimits: self.ulimits.deep_view(),
            mac_address: self.mac_address.deep_view(),
            run_mode: match self.run_mode {
                RunMode::Local => 0,
                RunMode::Remote => 1,
            },
            artifact_bind_directory: self.artifact_bind_directory@,
        }
    }

    /// An executor with the given configuration, whose further mounts
    /// must be a map: no host path twice.  A run mode that is neither local
    /// nor remote is refused.
    pub fn new(cfg_docker: &CfgDocker) -> (out: Result<Self, SmeltErr>)
        requires
            cfg_docker.wf(),
        ensures
            match RunMode::numbered(cfg_docker.run_mode as int) {
                Some(mode) => out matches Ok(executor) && executor.run_mode == mode
                    && executor.settings() == cfg_docker@,
                None => out matches Err(e) && e@ == (SmeltErrView::InvalidConfig {
                    reason: "Unknown docker run_mode: "@ + signed_decimal(
                        cfg_docker.run_mode as int,
                    ),
                }),
            },
    {
        let run_mode = match RunMode::from_i32(cfg_docker.run_mode) {
            Some(mode) => mode,
            None => {
                let number = signed_decimal_string(cfg_docker.run_mode as i64);
                return Err(
                    SmeltErr::InvalidConfig {
                        reason: concat("Unknown docker run_mode: ", number.as_str()),
                    },
                );
            },
        };
        let copy = cfg_docker.clone();
        Ok(
            Self {
                image_name: copy.image_name,
                additional_mounts: copy.additional_mounts,
                ulimits: copy.ulimits,
                mac_address: copy.mac_address,
                run_mode,
                artifact_bind_directory: copy.artifact_bind_directory,
            },
        )
    }

    /// How the container of `command` is to be made.  `script_file` is the
    /// prepared script; it is run only where the root is mounted.
    pub fn container_config(&self, command: &Command, smelt_root: &str, script_file: &str) -> (out:
        ContainerConfig)
        ensures
            out@ == (ContainerConfigView {
                image: self.image_name@,
                working_dir: smelt_root@,
                cmd: container_cmd(self.run_mode, smelt_root@, command@, script_file@),
                env: container_env(smelt_root@, command.name@),
                mac_address: self.mac_address.deep_view(),
                binds: container_binds(
                    self.run_mode,
                    smelt_root@,
                    self.artifact_bind_directory@,
                    command.name@,
                    self.additional_mounts.deep_view(),
                ),
                ulimits: self.ulimits.deep_view(),
            }),
    {
        let target_root = get_target_root(smelt_root, command.name.as_str());
        let mut cmd: Vec<String> = Vec::new();
        match self.run_mode {
            RunMode::Local => {
                cmd.push(String::from_str("bash"));
                cmd.push(String::from_str(script_file));
                assert(cmd.deep_view() =~= container_cmd(
                    self.run_mode,
                    smelt_root@,
                    command@,
                    script_file@,
                ));
            },
            RunMode::Remote => {
                let mut sub_command: Vec<String> = Vec::new();
                sub_command.push(concat("mkdir -p ", target_root.as_str()));
                let mut i: usize = 0;
                while i < command.script.len()
                    invariant
                        i <= command.script.len(),
                        sub_command.len() == i + 1,
                        sub_command[0]@ == "mkdir -p "@ + target_root@,
                        forall|j: int| 0 <= j < i ==> (#[trigger] sub_command[j + 1])@ == command.script[j]@,
                    decreases command.script.len() - i,
                {
                    sub_command.push(command.script[i].clone());
                    i += 1;
                }
                assert(sub_command.deep_view() =~= seq!["mkdir -p "@ + target_root@]
                    + command@.script) by {
                    let lhs = sub_command.deep_view();
                    let rhs = seq!["mkdir -p "@ + target_root@] + command@.script;
                    assert(lhs.len() == rhs.len());
                    assert forall|j: int| 0 <= j < lhs.len() implies lhs[j] == rhs[j] by {
                        if j > 0 {
                            assert(sub_command[(j - 1) + 1]@ == command.script[j - 1]@);
                        }
                    }
                }
                cmd.push(String::from_str("bash"));
                cmd.push(String::from_str("-c"));
                cmd.push(join(&sub_command, " && "));
                assert(cmd.deep_view() =~= container_cmd(
                    self.run_mode,
                    smelt_root@,
                    command@,
                    script_file@,
                ));
            },
        }
        let mut env: Vec<String> = Vec::new();
        env.push(concat("SMELT_ROOT=", smelt_root));
        env.push(concat("TARGET_ROOT=", target_root.as_str()));
        assert(env.deep_view() =~= container_env(smelt_root@, command.name@));
        let mut art = concat(self.artifact_bind_directory.as_str(), "/");
        art.append(command.name.as_str());
        art.append(":");
        art.append("/tmp/artifacts/");
        let mut binds: Vec<String> = Vec::new();
        match self.run_mode {
            RunMode::Local => {
                let mut root_bind = concat(smelt_root, ":");
                root_bind.append(smelt_root);
                binds.push(root_bind);
                binds.push(art);
                let ghost mounts = self.additional_mounts.deep_view();
                let mut m: usize = 0;
                while m < self.additional_mounts.len()
                    invariant
                        m <= self.additional_mounts.len(),
                        mounts == self.additional_mounts.deep_view(),
                        binds.len() == m + 2,
                        binds[0]@ == smelt_root@ + ":"@ + smelt_root@,
                        binds[1]@ == artifact_bind(self.artifact_bind_directory@, command.name@),
                        forall|j: int|
                            0 <= j < m ==> (#[trigger] binds[j + 2])@ == mount_binds(mounts)[j],
                    decreases self.additional_mounts.len() - m,
                {
                    let mut bind = concat(self.additional_mounts[m].0.as_str(), ":");
                    bind.append(self.additional_mounts[m].1.as_str());
                    assert(mounts[m as int] == self.additional_mounts[m as int].deep_view());
                    binds.push(bind);
                    m += 1;
                }
                assert(binds.deep_view() =~= container_binds(
                    self.run_mode,
                    smelt_root@,
                    self.artifact_bind_directory@,
                    command.name@,
                    mounts,
                )) by {
                    let lhs = binds.deep_view();
                    let rhs = container_binds(
                        self.run_mode,
                        smelt_root@,
                        self.artifact_bind_directory@,
                        command.name@,
                        mounts,
                    );
                    assert(lhs.len() == rhs.len());
                    assert forall|j: int| 0 <= j < lhs.len() implies lhs[j] == rhs[j] by {
                        if j >= 2 {
                            assert(binds[(j - 2) + 2]@ == mount_binds(mounts)[j - 2]);
                        }
                    }
                }
            },
            RunMode::Remote => {
                binds.push(art);
                assert(binds.deep_view() =~= container_binds(
                    self.run_mode,
                    smelt_root@,
                    self.artifact_bind_directory@,
                    command.name@,
                    self.additional_mounts.deep_view(),
                ));
            },
        }
        let mut ulimits: Vec<Ulimit> = Vec::new();
        let mut u: usize = 0;
        while u < self.ulimits.len()
            invariant
                u <= self.ulimits.len(),
                ulimits.len() == u,
                forall|j: int| 0 <= j < u ==> ulimits[j]@ == self.ulimits[j]@,
            decreases self.ulimits.len() - u,
        {
            ulimits.push(self.ulimits[u].clone());
            u += 1;
        }
        assert(ulimits.deep_view() =~= self.ulimits.deep_view());
        let mac_address = match &self.mac_address {
            Some(mac) => Some(mac.clone()),
            None => None,
        };
        ContainerConfig {
            image: self.image_name.clone(),
            working_dir: String::from_str(smelt_root),
            cmd,
            env,
            mac_address,
            binds,
            ulimits,
        }
    }
}

} // verus!
