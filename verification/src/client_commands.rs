//! What a client may ask of the engine, what it is answered, and how the
//! engine is configured.

use vstd::prelude::*;
use vstd::string::*;

verus! {

#[derive(Debug, PartialEq, Eq)]
pub struct SetCommands {
    pub command_content: String,
}

#[derive(Debug, PartialEq, Eq)]
pub struct RunOne {
    pub command_name: String,
}

#[derive(Debug, PartialEq, Eq)]
pub struct RunMany {
    pub command_names: Vec<String>,
}

#[derive(Debug, PartialEq, Eq)]
pub struct RunType {
    pub typeinfo: String,
}

#[derive(Debug, PartialEq, Eq, Clone, Copy, Structural)]
pub struct GetConfig {}

#[derive(Debug, PartialEq, Eq)]
pub enum ClientCommands {
    Setter(SetCommands),
    Runone(RunOne),
    Runmany(RunMany),
    Runtype(RunType),
    Getcfg(GetConfig),
}

#[derive(Debug, PartialEq, Eq)]
pub struct ClientCommand {
    pub client_commands: Option<ClientCommands>,
}

impl ClientCommand {
    /// Asks the engine to take the command list written in `graph_string`.
    pub fn send_graph(graph_string: String) -> (out: Self)
        ensures
            out.client_commands == Some(
                ClientCommands::Setter(SetCommands { command_content: graph_string }),
            ),
    {
        let cc = ClientCommands::Setter(SetCommands { command_content: graph_string });
        ClientCommand { client_commands: Some(cc) }
    }

    /// Asks the engine to run one command and what it depends on.
    pub fn execute_command(command_name: String) -> (out: Self)
        ensures
            out.client_commands == Some(ClientCommands::Runone(RunOne { command_name })),
    {
        let cc = ClientCommands::Runone(RunOne { command_name });
        ClientCommand { client_commands: Some(cc) }
    }

    /// Asks the engine to run the named commands and what they depend on.
    pub fn execute_many(command_names: Vec<String>) -> (out: Self)
        ensures
            out.client_commands == Some(ClientCommands::Runmany(RunMany { command_names })),
    {
        let cc = ClientCommands::Runmany(RunMany { command_names });
        ClientCommand { client_commands: Some(cc) }
    }

    /// Asks the engine to run every command of one target type.
    pub fn execute_type(typeinfo: String) -> (out: Self)
        ensures
            out.client_commands == Some(ClientCommands::Runtype(RunType { typeinfo })),
    {
        let cc = ClientCommands::Runtype(RunType { typeinfo });
        ClientCommand { client_commands: Some(cc) }
    }

    /// Asks the engine for its configuration.
    pub fn get_cfg() -> (out: Self)
        ensures
            out.client_commands == Some(ClientCommands::Getcfg(GetConfig {  })),
    {
        let cc = ClientCommands::Getcfg(GetConfig {  });
        ClientCommand { client_commands: Some(cc) }
    }
}

/// Whether and how running commands are sampled.
#[derive(Debug, PartialEq, Eq, Clone, Copy, Structural)]
pub enum ProfilingSelection {
    Disabled,
    SimpleProf,
}

impl ProfilingSelection {
    /// The number that stands for the selection in a configuration.
    pub open spec fn number(self) -> int {
        match self {
            ProfilingSelection::Disabled => 0,
            ProfilingSelection::SimpleProf => 1,
        }
    }

    pub fn as_i32(&self) -> (out: i32)
        ensures
            out == self.number(),
    {
        match self {
            ProfilingSelection::Disabled => 0,
            ProfilingSelection::SimpleProf => 1,
        }
    }
}

#[derive(Debug, PartialEq, Eq, Clone, Copy, Structural)]
pub struct ProfilerCfg {
    pub prof_type: i32,
    /// Milliseconds between two samples.
    pub sampling_period: u64,
}

#[derive(Debug, PartialEq, Eq, Clone, Copy, Structural)]
pub struct CfgLocal {}

/// How the docker executor gets the script into the container.
#[derive(Debug, PartialEq, Eq, Clone, Copy, Structural)]
pub enum RunMode {
    /// The Smelt root is mounted into the container.
    Local,
    /// Nothing is mounted but the artifact directory.
    Remote,
}

impl RunMode {
    /// The mode that a number in a configuration stands for.
    pub open spec fn numbered(number: int) -> Option<RunMode> {
        if number == 0 {
            Some(RunMode::Local)
        } else if number == 1 {
            Some(RunMode::Remote)
        } else {
            None
        }
    }

    pub fn from_i32(number: i32) -> (out: Option<RunMode>)
        ensures
            out == Self::numbered(number as int),
    {
        if number == 0 {
            Some(RunMode::Local)
        } else if number == 1 {
            Some(RunMode::Remote)
        } else {
            None
        }
    }
}

#[derive(Debug, PartialEq, Eq)]
pub struct Ulimit {
    pub name: String,
    pub soft: i64,
    pub hard: i64,
}

#[derive(Debug, PartialEq, Eq)]
pub struct CfgDocker {
    pub image_name: String,
    /// Host path and container path of each further mount, in the order of
    /// the host paths.
    pub additional_mounts: Vec<(String, String)>,
    pub ulimits: Vec<Ulimit>,
    pub mac_address: Option<String>,
    pub run_mode: i32,
    pub artifact_bind_directory: String,
}

#[derive(Debug, PartialEq, Eq)]
pub enum InitExecutor {
    Local(CfgLocal),
    Docker(CfgDocker),
}

#[derive(Debug, PartialEq, Eq)]
pub struct ConfigureSmelt {
    pub smelt_root: String,
    pub job_slots: u64,
    pub silent: bool,
    pub test_only: bool,
    pub prof_cfg: Option<ProfilerCfg>,
    pub init_executor: Option<InitExecutor>,
}

/// What a [`Ulimit`] says, as plain values.
pub struct UlimitView {
    pub name: Seq<char>,
    pub soft: int,
    pub hard: int,
}

/// What a [`CfgDocker`] says, as plain values.
pub struct CfgDockerView {
    pub image_name: Seq<char>,
    pub additional_mounts: Seq<(Seq<char>, Seq<char>)>,
    pub ulimits: Seq<UlimitView>,
    pub mac_address: Option<Seq<char>>,
    pub run_mode: int,
    pub artifact_bind_directory: Seq<char>,
}

/// What an [`InitExecutor`] says, as plain values.
pub enum InitExecutorView {
    Local,
    Docker(CfgDockerView),
}

/// What a [`ConfigureSmelt`] says, as plain values.
pub struct ConfigureSmeltView {
    pub smelt_root: Seq<char>,
    pub job_slots: int,
    pub silent: bool,
    pub test_only: bool,
    pub prof_cfg: Option<ProfilerCfg>,
    pub init_executor: Option<InitExecutorView>,
}

impl DeepView for Ulimit {
    type V = UlimitView;

    open spec fn deep_view(&self) -> UlimitView {
        UlimitView { name: self.name@, soft: self.soft as int, hard: self.hard as int }
    }
}

impl View for Ulimit {
    type V = UlimitView;

    open spec fn view(&self) -> UlimitView {
        self.deep_view()
    }
}

impl DeepView for CfgDocker {
    type V = CfgDockerView;

    open spec fn deep_view(&self) -> CfgDockerView {
        CfgDockerView {
            image_name: self.image_name@,
            additional_mounts: self.additional_mounts.deep_view(),
            ulimits: self.ulimits.deep_view(),
            mac_address: self.mac_address.deep_view(),
            run_mode: self.run_mode as int,
            artifact_bind_directory: self.artifact_bind_directory@,
        }
    }
}

impl View for CfgDocker {
    type V = CfgDockerView;

    open spec fn view(&self) -> CfgDockerView {
        self.deep_view()
    }
}

impl DeepView for InitExecutor {
    type V = InitExecutorView;

    open spec fn deep_view(&self) -> InitExecutorView {
        match self {
            InitExecutor::Local(_) => InitExecutorView::Local,
            InitExecutor::Docker(cfg) => InitExecutorView::Docker(cfg@),
        }
    }
}

impl View for InitExecutor {
    type V = InitExecutorView;

    open spec fn view(&self) -> InitExecutorView {
        self.deep_view()
    }
}

impl DeepView for ConfigureSmelt {
    type V = ConfigureSmeltView;

    open spec fn deep_view(&self) -> ConfigureSmeltView {
        ConfigureSmeltView {
            smelt_root: self.smelt_root@,
            job_slots: self.job_slots as int,
            silent: self.silent,
            test_only: self.test_only,
            prof_cfg: self.prof_cfg,
            init_executor: self.init_executor.deep_view(),
        }
    }
}

impl View for ConfigureSmelt {
    type V = ConfigureSmeltView;

    open spec fn view(&self) -> ConfigureSmeltView {
        self.deep_view()
    }
}

/// No host path is mounted twice.
pub open spec fn mounts_distinct(mounts: Seq<(Seq<char>, Seq<char>)>) -> bool {
    forall|i: int, j: int| 0 <= i < j < mounts.len() ==> (#[trigger] mounts[i]).0 != (#[trigger] mounts[j]).0
}

impl CfgDocker {
    /// The further mounts are a map from host paths: none occurs twice.
    pub open spec fn wf(&self) -> bool {
        mounts_distinct(self@.additional_mounts)
    }

    /// Whether no host path is mounted twice.
    pub fn has_distinct_mounts(&self) -> (b: bool)
        ensures
            b == self.wf(),
    {
        let ghost mounts = self@.additional_mounts;
        let mut j: usize = 0;
        while j < self.additional_mounts.len()
            invariant
                j <= self.additional_mounts.len(),
                mounts == self@.additional_mounts,
                mounts.len() == self.additional_mounts.len(),
                forall|x: int, y: int| 0 <= x < y < j ==> (#[trigger] mounts[x]).0 != (#[trigger] mounts[y]).0,
            decreases self.additional_mounts.len() - j,
        {
            let mut i: usize = 0;
            while i < j
                invariant
                    i <= j < self.additional_mounts.len(),
                    mounts == self@.additional_mounts,
                    mounts.len() == self.additional_mounts.len(),
                    forall|x: int| 0 <= x < i ==> (#[trigger] mounts[x]).0 != mounts[j as int].0,
                decreases j - i,
            {
                assert(mounts[i as int].0 == self.additional_mounts[i as int].0@);
                assert(mounts[j as int].0 == self.additional_mounts[j as int].0@);
                if self.additional_mounts[i].0 == self.additional_mounts[j].0 {
                    return false;
                }
                i += 1;
            }
            j += 1;
        }
        true
    }
}

/// A copy of the pairs, one by one.
pub fn clone_pairs(pairs: &Vec<(String, String)>) -> (out: Vec<(String, String)>)
    ensures
        out.deep_view() == pairs.deep_view(),
{
    let mut out: Vec<(String, String)> = Vec::new();
    let mut i: usize = 0;
    while i < pairs.len()
        invariant
            i <= pairs.len(),
            out.len() == i,
            forall|j: int| 0 <= j < i ==> out[j].deep_view() == pairs[j].deep_view(),
        decreases pairs.len() - i,
    {
        out.push((pairs[i].0.clone(), pairs[i].1.clone()));
        i += 1;
    }
    assert(out.deep_view() =~= pairs.deep_view());
    out
}

impl Clone for Ulimit {
    fn clone(&self) -> (out: Self)
        ensures
            out@ == self@,
    {
        Ulimit { name: self.name.clone(), soft: self.soft, hard: self.hard }
    }
}

impl Clone for CfgDocker {
    fn clone(&self) -> (out: Self)
        ensures
            out@ == self@,
    {
        let mut ulimits: Vec<Ulimit> = Vec::new();
        let mut i: usize = 0;
        while i < self.ulimits.len()
            invariant
                i <= self.ulimits.len(),
                ulimits.len() == i,
                forall|j: int| 0 <= j < i ==> ulimits[j]@ == self.ulimits[j]@,
            decreases self.ulimits.len() - i,
        {
            ulimits.push(self.ulimits[i].clone());
            i += 1;
        }
        assert(ulimits.deep_view() =~= self.ulimits.deep_view());
        let mac_address = match &self.mac_address {
            Some(mac) => Some(mac.clone()),
            None => None,
        };
        CfgDocker {
            image_name: self.image_name.clone(),
            additional_mounts: clone_pairs(&self.additional_mounts),
            ulimits,
            mac_address,
            run_mode: self.run_mode,
            artifact_bind_directory: self.artifact_bind_directory.clone(),
        }
    }
}

impl Clone for InitExecutor {
    fn clone(&self) -> (out: Self)
        ensures
            out@ == self@,
    {
        match self {
            InitExecutor::Local(_) => InitExecutor::Local(CfgLocal {  }),
            InitExecutor::Docker(cfg) => InitExecutor::Docker(cfg.clone()),
        }
    }
}

impl Clone for ConfigureSmelt {
    fn clone(&self) -> (out: Self)
        ensures
            out@ == self@,
    {
        let init_executor = match &self.init_executor {
            Some(init) => Some(init.clone()),
            None => None,
        };
        ConfigureSmelt {
            smelt_root: self.smelt_root.clone(),
            job_slots: self.job_slots,
            silent: self.silent,
            test_only: self.test_only,
            prof_cfg: self.prof_cfg,
            init_executor,
        }
    }
}

#[derive(Debug, PartialEq, Eq)]
pub enum ClientResponses {
    CurrentCfg(ConfigureSmelt),
}

#[derive(Debug, PartialEq, Eq)]
pub struct ClientResp {
    pub client_responses: Option<ClientResponses>,
}

} // verus!
