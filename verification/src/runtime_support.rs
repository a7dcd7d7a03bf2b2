//! What a command can ask of its surroundings while it runs: the trace id
//! of its invocation, and the configuration of the engine.

use crate::client_commands::{ConfigureSmelt, ProfilingSelection};
use crate::graph::permits_needed;
use vstd::prelude::*;
use vstd::string::*;

verus! {

/// Calls `Uuid::new_v4` of the `uuid` crate and writes what it gives in
/// the hyphenated form: thirty-six characters, left to chance but for the
/// hyphens and the version.
#[verifier::external_body]
fn new_uuid() -> (out: String)
    ensures
        out@.len() == 36,
{
    uuid::Uuid::new_v4().to_string()
}

pub trait SetTraceId {
    /// Whether a trace id was set.
    spec fn trace_id_set(&self) -> bool;

    /// Gives the invocation a trace id of its own.
    fn init_trace_id(&mut self)
        ensures
            final(self).trace_id_set(),
    ;
}

pub trait GetTraceId {
    /// The trace id, if one was set.
    spec fn trace_id(&self) -> Option<Seq<char>>;

    /// The trace id of the invocation.  One must have been set.
    fn get_trace_id(&self) -> (out: String)
        requires
            self.trace_id() is Some,
        ensures
            self.trace_id() == Some(out@),
    ;
}

pub trait SetSmeltCfg {
    /// The configuration, if one was set.
    spec fn smelt_cfg(&self) -> Option<ConfigureSmelt>;

    /// The size of the budget, if one was set.
    spec fn semaphore(&self) -> Option<usize>;

    /// Sets the configuration, and the budget to its job slots.
    fn set_smelt_cfg(&mut self, cfg: ConfigureSmelt)
        requires
            cfg.job_slots <= usize::MAX,
        ensures
            final(self).smelt_cfg() == Some(cfg),
            final(self).semaphore() == Some(cfg.job_slots as usize),
    ;
}

pub trait GetSmeltCfg {
    /// The configuration of the engine.
    spec fn cfg(&self) -> ConfigureSmelt;

    fn get_smelt_cfg(&self) -> (out: &ConfigureSmelt)
        ensures
            *out == self.cfg(),
    ;
}

pub trait GetSmeltRoot {
    /// The root that paths are resolved against.
    spec fn smelt_root(&self) -> Seq<char>;

    fn get_smelt_root(&self) -> (out: String)
        ensures
            out@ == self.smelt_root(),
    ;
}

pub trait SetSemaphore {
    /// The size of the budget, if one was set.
    spec fn permits(&self) -> Option<usize>;

    /// Sets the size of the budget.
    fn set_sempahore(&mut self, cnt: usize)
        ensures
            final(self).permits() == Some(cnt),
    ;
}

pub trait GetJobSlots {
    /// How many permits the budget holds.
    spec fn job_slots(&self) -> u64;

    fn get_job_slots(&self) -> (out: u64)
        ensures
            out == self.job_slots(),
    ;
}

pub trait GetProfilingFreq {
    /// The milliseconds between two samples; `None` where profiling is off.
    spec fn profiling_freq(&self) -> Option<u64>;

    fn get_profiling_freq(&self) -> (out: Option<u64>)
        ensures
            out == self.profiling_freq(),
    ;
}

/// What belongs to one invocation.
pub struct InvocationData {
    trace_id: Option<String>,
}

/// What belongs to the engine as a whole.
pub struct GlobalData {
    cfg: ConfigureSmelt,
    semaphore: usize,
}

/// Collects what a [`GlobalData`] is made of.
pub struct GlobalDataBuilder {
    cfg: Option<ConfigureSmelt>,
    semaphore: Option<usize>,
}

impl InvocationData {
    pub fn new() -> (out: Self)
        ensures
            out.trace_id() is None,
            !out.trace_id_set(),
    {
        InvocationData { trace_id: None }
    }
}

impl SetTraceId for InvocationData {
    closed spec fn trace_id_set(&self) -> bool {
        self.trace_id is Some
    }

    fn init_trace_id(&mut self)
        ensures
            final(self).trace_id() is Some,
            final(self).trace_id()->0.len() == 36,
    {
        self.trace_id = Some(new_uuid());
    }
}

impl GetTraceId for InvocationData {
    closed spec fn trace_id(&self) -> Option<Seq<char>> {
        match self.trace_id {
            Some(id) => Some(id@),
            None => None,
        }
    }

    fn get_trace_id(&self) -> (out: String) {
        match &self.trace_id {
            Some(id) => id.clone(),
            None => String::new(),
        }
    }
}

impl GlobalDataBuilder {
    pub fn new() -> (out: Self)
        ensures
            out.smelt_cfg() is None,
            out.semaphore() is None,
    {
        GlobalDataBuilder { cfg: None, semaphore: None }
    }

    /// The data, if a configuration was set.
    pub fn build(self) -> (out: Option<GlobalData>)
        ensures
            match self.smelt_cfg() {
                Some(cfg) => out matches Some(data) && data.cfg() == cfg,
                None => out is None,
            },
    {
        match self.cfg {
            Some(cfg) => {
                let semaphore = match self.semaphore {
                    Some(cnt) => cnt,
                    None => 0,
                };
                Some(GlobalData { cfg, semaphore })
            },
            None => None,
        }
    }
}

impl SetSmeltCfg for GlobalDataBuilder {
    closed spec fn smelt_cfg(&self) -> Option<ConfigureSmelt> {
        self.cfg
    }

    closed spec fn semaphore(&self) -> Option<usize> {
        self.semaphore
    }

    fn set_smelt_cfg(&mut self, cfg: ConfigureSmelt) {
        let max = cfg.job_slots as usize;
        self.cfg = Some(cfg);
        self.set_sempahore(max);
    }
}

impl SetSemaphore for GlobalDataBuilder {
    closed spec fn permits(&self) -> Option<usize> {
        self.semaphore
    }

    fn set_sempahore(&mut self, cnt: usize)
        ensures
            final(self).smelt_cfg() == old(self).smelt_cfg(),
            final(self).semaphore() == Some(cnt),
    {
        self.semaphore = Some(cnt);
    }
}

impl GlobalData {
    pub fn new(cfg: ConfigureSmelt) -> (out: Self)
        requires
            cfg.job_slots <= usize::MAX,
        ensures
            out.cfg() == cfg,
    {
        let semaphore = cfg.job_slots as usize;
        GlobalData { cfg, semaphore }
    }

    /// The permits that a command asking for `cnt` processors takes: as
    /// many, but never more than the budget holds.
    pub fn permits_for(&self, cnt: u32) -> (out: u64)
        ensures
            out == permits_needed(cnt as int, self.cfg().job_slots as int),
            out <= self.cfg().job_slots,
    {
        let wanted = cnt as u64;
        if wanted <= self.cfg.job_slots {
            wanted
        } else {
            self.cfg.job_slots
        }
    }
}

impl GetSmeltCfg for GlobalData {
    closed spec fn cfg(&self) -> ConfigureSmelt {
        self.cfg
    }

    fn get_smelt_cfg(&self) -> (out: &ConfigureSmelt) {
        &self.cfg
    }
}

impl GetSmeltRoot for GlobalData {
    open spec fn smelt_root(&self) -> Seq<char> {
        self.cfg().smelt_root@
    }

    fn get_smelt_root(&self) -> (out: String) {
        self.cfg.smelt_root.clone()
    }
}

impl GetJobSlots for GlobalData {
    open spec fn job_slots(&self) -> u64 {
        self.cfg().job_slots
    }

    fn get_job_slots(&self) -> (out: u64) {
        self.cfg.job_slots
    }
}

impl GetProfilingFreq for GlobalData {
    open spec fn profiling_freq(&self) -> Option<u64> {
        match self.cfg().prof_cfg {
            Some(prof) => if prof.prof_type == ProfilingSelection::Disabled.number() {
                None
            } else {
                Some(prof.sampling_period)
            },
            None => None,
        }
    }

    fn get_profiling_freq(&self) -> (out: Option<u64>) {
        match &self.cfg.prof_cfg {
            Some(prof) => if prof.prof_type == ProfilingSelection::Disabled.as_i32() {
                None
            } else {
                Some(prof.sampling_period)
            },
            None => None,
        }
    }
}

} // verus!
