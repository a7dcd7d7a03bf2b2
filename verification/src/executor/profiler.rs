//! Sampling the memory and the processor time of a running command.
//!
//! The numbers come from the operating system or from the container
//! runtime; what is made of them is decided here.

use crate::events::{CommandProfile, CommandVariant, CpuLoad, Event, EventSummary};
use vstd::prelude::*;
use vstd::string::*;

verus! {

pub const NANOS_TO_MICROS: u64 = 1_000;

/// One sample of a command and all its children.
#[derive(Debug, PartialEq, Eq, Clone, Copy, Structural)]
pub struct SampleStruct {
    /// Bytes of memory in use.
    pub memory_used: u64,
    /// Processor time used so far, in nanoseconds.
    pub cpu_time_delta: u64,
}

/// What the operating system says of one process.
#[derive(Debug, PartialEq, Eq, Clone, Copy, Structural)]
pub struct ProcessUsage {
    /// Bytes of memory in use.
    pub memory_used: u64,
    /// Time spent in the kernel, in ticks.
    pub system_time: u64,
    /// Time spent outside the kernel, in ticks.
    pub user_time: u64,
}

/// How long a tick is: `numer / denom` nanoseconds.
#[derive(Debug, PartialEq, Eq, Clone, Copy, Structural)]
pub struct Timebase {
    pub numer: u32,
    pub denom: u32,
}

/// The processor time of a process in nanoseconds.
pub open spec fn usage_nanos(usage: ProcessUsage, timebase: Timebase) -> int {
    ((usage.system_time + usage.user_time) * timebase.numer as int) / timebase.denom as int
}

/// The memory of the first `upto` processes together.
pub open spec fn memory_sum(usages: Seq<ProcessUsage>, upto: int) -> int
    decreases upto,
{
    if upto <= 0 {
        0
    } else {
        memory_sum(usages, upto - 1) + usages[upto - 1].memory_used
    }
}

/// The processor time of the first `upto` processes together, in
/// nanoseconds.
pub open spec fn time_sum(usages: Seq<ProcessUsage>, timebase: Timebase, upto: int) -> int
    decreases upto,
{
    if upto <= 0 {
        0
    } else {
        time_sum(usages, timebase, upto - 1) + usage_nanos(usages[upto - 1], timebase)
    }
}

/// The sums never shrink as more processes are taken in.
pub proof fn lemma_sums_grow(usages: Seq<ProcessUsage>, timebase: Timebase, upto: int, all: int)
    requires
        0 <= upto <= all <= usages.len(),
        timebase.denom > 0,
    ensures
        0 <= memory_sum(usages, upto) <= memory_sum(usages, all),
        0 <= time_sum(usages, timebase, upto) <= time_sum(usages, timebase, all),
    decreases all,
{
    if upto < all {
        lemma_sums_grow(usages, timebase, upto, all - 1);
        let u = usages[all - 1];
        assert(usage_nanos(u, timebase) >= 0) by (nonlinear_arith)
            requires
                u.system_time + u.user_time >= 0,
                timebase.numer >= 0,
                timebase.denom > 0,
                usage_nanos(u, timebase) == ((u.system_time + u.user_time) * timebase.numer as int)
                    / timebase.denom as int,
        ;
    } else if upto > 0 {
        lemma_sums_grow(usages, timebase, upto - 1, upto - 1);
        let u = usages[upto - 1];
        assert(usage_nanos(u, timebase) >= 0) by (nonlinear_arith)
            requires
                u.system_time + u.user_time >= 0,
                timebase.numer >= 0,
                timebase.denom > 0,
                usage_nanos(u, timebase) == ((u.system_time + u.user_time) * timebase.numer as int)
                    / timebase.denom as int,
        ;
    }
}

/// Adds up the memory and the processor time of a command and its
/// children: `usages` holds what the operating system says of each process
/// that could be asked, the children first and the command last.  Ticks are
/// turned into nanoseconds by the time base.  The sums must fit 64 bits.
pub fn sample_memory_and_load(usages: &Vec<ProcessUsage>, timebase: Timebase) -> (out: Option<
    SampleStruct,
>)
    requires
        timebase.denom > 0,
        memory_sum(usages@, usages.len() as int) <= u64::MAX,
        time_sum(usages@, timebase, usages.len() as int) <= u64::MAX,
    ensures
        out == Some(
            SampleStruct {
                memory_used: memory_sum(usages@, usages.len() as int) as u64,
                cpu_time_delta: time_sum(usages@, timebase, usages.len() as int) as u64,
            },
        ),
{
    let mut timeused: u64 = 0;
    let mut memused: u64 = 0;
    let mut i: usize = 0;
    while i < usages.len()
        invariant
            i <= usages.len(),
            timebase.denom > 0,
            memory_sum(usages@, usages.len() as int) <= u64::MAX,
            time_sum(usages@, timebase, usages.len() as int) <= u64::MAX,
            memused == memory_sum(usages@, i as int),
            timeused == time_sum(usages@, timebase, i as int),
        decreases usages.len() - i,
    {
        proof {
            lemma_sums_grow(usages@, timebase, i as int + 1, usages.len() as int);
            lemma_sums_grow(usages@, timebase, i as int, i as int + 1);
        }
        let usage = usages[i];
        let ticks: u128 = usage.system_time as u128 + usage.user_time as u128;
        assert(ticks * (timebase.numer as u128) <= u128::MAX) by (nonlinear_arith)
            requires
                ticks <= 2 * 0xFFFF_FFFF_FFFF_FFFF,
                timebase.numer <= 0xFFFF_FFFF,
        ;
        let nanos: u128 = (ticks * (timebase.numer as u128)) / (timebase.denom as u128);
        assert(nanos == usage_nanos(usage, timebase));
        memused = memused + usage.memory_used;
        timeused = timeused + nanos as u64;
        i += 1;
    }
    Some(SampleStruct { memory_used: memused, cpu_time_delta: timeused })
}

/// The profile made of two samples that follow each other: the memory of
/// the later one, and as load the processor time used between them, in
/// microseconds, over the microseconds that passed.
pub open spec fn profile_of(
    sample: SampleStruct,
    prev: SampleStruct,
    time_since_previous_us: u64,
    time_since_start_ms: u64,
) -> CommandProfile {
    CommandProfile {
        memory_used: sample.memory_used,
        cpu_load: CpuLoad {
            cpu_time: if sample.cpu_time_delta >= prev.cpu_time_delta {
                (sample.cpu_time_delta - prev.cpu_time_delta) as u64
            } else {
                0
            },
            wall_time: time_since_previous_us,
            multiplier: 1,
            divisor: NANOS_TO_MICROS,
        },
        time_since_start_ms,
    }
}

/// The event for two samples of `command_ref` that follow each other.
pub fn profile_event(
    trace_id: &String,
    command_ref: &String,
    sample: &SampleStruct,
    prev: &SampleStruct,
    time_since_previous_us: u64,
    time_since_start_ms: u64,
) -> (out: Event)
    ensures
        out.trace_id@ == trace_id@,
        out.summary() == (EventSummary::Profile {
            command: command_ref@,
            profile: profile_of(*sample, *prev, time_since_previous_us, time_since_start_ms),
        }),
{
    let variant = CommandVariant::Profile(
        CommandProfile {
            memory_used: sample.memory_used,
            cpu_load: CpuLoad {
                cpu_time: sample.cpu_time_delta.saturating_sub(prev.cpu_time_delta),
                wall_time: time_since_previous_us,
                multiplier: 1,
                divisor: NANOS_TO_MICROS,
            },
            time_since_start_ms,
        },
    );
    Event::from_command_variant(command_ref.clone(), trace_id.clone(), variant)
}

/// Which field of the memory statistics counts as cache.
#[derive(Debug, PartialEq, Eq, Clone, Copy, Structural)]
pub enum MemoryStatsStats {
    V1 { cache: u64 },
    V2 { inactive_file: u64 },
}

/// The statistics of a container, as far as a profile is made of them.
#[derive(Debug, PartialEq, Eq)]
pub struct Stats {
    /// When the statistics were read, as the runtime writes it.
    pub read: String,
    pub cpu_total_usage: u64,
    pub precpu_total_usage: u64,
    pub system_cpu_usage: Option<u64>,
    pub precpu_system_cpu_usage: Option<u64>,
    pub online_cpus: Option<u64>,
    /// How many processors the usage is broken down by, if it is.
    pub percpu_usage_len: Option<u64>,
    pub memory_usage: Option<u64>,
    pub memory_stats: Option<MemoryStatsStats>,
}

impl Stats {
    /// How many processors the container can use, if the runtime says.
    pub open spec fn number_cpus(&self) -> Option<u64> {
        match (self.online_cpus, self.percpu_usage_len) {
            (Some(cpus), _) => Some(cpus),
            (_, Some(len)) => Some(len),
            (_, _) => None,
        }
    }

    /// What counts as cache in the memory in use.
    pub open spec fn cache(&self) -> u64 {
        match self.memory_stats {
            None => 0,
            Some(MemoryStatsStats::V1 { cache }) => cache,
            Some(MemoryStatsStats::V2 { inactive_file }) => inactive_file,
        }
    }

    /// The statistics are such that a profile can be made of them without
    /// taking more away than there is.
    pub open spec fn consistent(&self) -> bool {
        &&& self.cpu_total_usage >= self.precpu_total_usage
        &&& self.memory_usage matches Some(usage) ==> usage >= self.cache()
    }

    /// Whether a profile can be made of the statistics without taking
    /// more away than there is.
    pub fn is_consistent(&self) -> (b: bool)
        ensures
            b == self.consistent(),
    {
        let cache = match self.memory_stats {
            None => 0,
            Some(MemoryStatsStats::V1 { cache }) => cache,
            Some(MemoryStatsStats::V2 { inactive_file }) => inactive_file,
        };
        let memory_fits = match self.memory_usage {
            Some(usage) => usage >= cache,
            None => true,
        };
        self.cpu_total_usage >= self.precpu_total_usage && memory_fits
    }

    /// The profile made of the statistics, if they hold all that it takes:
    /// both readings of the system's processor time, the number of
    /// processors, and the memory in use.
    pub open spec fn profile(&self, time_since_start_ms: u64) -> Option<CommandProfile> {
        if self.system_cpu_usage is None || self.precpu_system_cpu_usage is None
            || self.number_cpus() is None || self.memory_usage is None {
            None
        } else {
            Some(
                CommandProfile {
                    memory_used: (self.memory_usage->0 - self.cache()) as u64,
                    cpu_load: CpuLoad {
                        cpu_time: (self.cpu_total_usage - self.precpu_total_usage) as u64,
                        wall_time: if self.system_cpu_usage->0 >= self.precpu_system_cpu_usage->0 {
                            (self.system_cpu_usage->0 - self.precpu_system_cpu_usage->0) as u64
                        } else {
                            0
                        },
                        multiplier: self.number_cpus()->0,
                        divisor: 1,
                    },
                    time_since_start_ms,
                },
            )
        }
    }
}

/// The event for the statistics of the container of `command_ref`.  The
/// load is the container's processor time over the system's, times the
/// number of processors; the memory is what is in use without the cache.
pub fn docker_profile_event(
    trace_id: &String,
    command_ref: &String,
    stats: &Stats,
    time_since_start_ms: u64,
) -> (out: Option<Event>)
    requires
        stats.consistent(),
    ensures
        match stats.profile(time_since_start_ms) {
            Some(profile) => out matches Some(event) && event.trace_id@ == trace_id@
                && event.summary() == (EventSummary::Profile { command: command_ref@, profile }),
            None => out is None,
        },
{
    let cpu_delta = stats.cpu_total_usage - stats.precpu_total_usage;
    let system_cpu_delta = match (stats.system_cpu_usage, stats.precpu_system_cpu_usage) {
        (None, _) => {
            return None;
        },
        (_, None) => {
            return None;
        },
        (Some(system_cpu_usage), Some(prev_system_cpu_usage)) => system_cpu_usage.saturating_sub(
            prev_system_cpu_usage,
        ),
    };
    let number_cpus = match (stats.online_cpus, stats.percpu_usage_len) {
        (Some(cpus), _) => cpus,
        (_, Some(len)) => len,
        (_, _) => {
            return None;
        },
    };
    let memory_used = match (stats.memory_usage, stats.memory_stats) {
        (None, _) => {
            return None;
        },
        (Some(usage), None) => usage,
        (Some(usage), Some(MemoryStatsStats::V1 { cache })) => usage - cache,
        (Some(usage), Some(MemoryStatsStats::V2 { inactive_file })) => usage - inactive_file,
    };
    let variant = CommandVariant::Profile(
        CommandProfile {
            memory_used,
            cpu_load: CpuLoad {
                cpu_time: cpu_delta,
                wall_time: system_cpu_delta,
                multiplier: number_cpus,
                divisor: 1,
            },
            time_since_start_ms,
        },
    );
    Some(Event::from_command_variant(command_ref.clone(), trace_id.clone(), variant))
}

/// The milliseconds since the Unix epoch that the text stands for when
/// `DateTime<Utc>` of `chrono` parses it, or `None` where it does not parse.
pub uninterp spec fn timestamp_millis_of(text: Seq<char>) -> Option<i64>;

/// Calls `str::parse::<DateTime<Utc>>` of `chrono` and, on what it gives,
/// `DateTime::timestamp_millis`.  The result is taken to depend on the
/// text alone.
#[verifier::external_body]
fn parse_timestamp_millis(text: &str) -> (out: Option<i64>)
    ensures
        out == timestamp_millis_of(text@),
{
    match text.parse::<chrono::DateTime<chrono::Utc>>() {
        Ok(time) => Some(time.timestamp_millis()),
        Err(_) => None,
    }
}

/// The time since the start of the profile for a sample read at
/// `sample_timestamp_ms`, in milliseconds; none for a time before the
/// Unix epoch.
pub open spec fn since_start(sample_timestamp_ms: i64, profile_start_time_ms: u64) -> Option<u64> {
    if sample_timestamp_ms < 0 {
        None
    } else if sample_timestamp_ms >= profile_start_time_ms {
        Some((sample_timestamp_ms - profile_start_time_ms) as u64)
    } else {
        Some(0)
    }
}

/// The event for statistics that were read at `sample_timestamp_ms`
/// milliseconds after the Unix epoch.  Statistics from before the epoch are
/// the runtime's way of saying that it has none yet: they give no event.
pub fn docker_stats_event_at(
    trace_id: &String,
    command_ref: &String,
    stats: &Stats,
    sample_timestamp_ms: i64,
    profile_start_time_ms: u64,
) -> (out: Option<Event>)
    requires
        stats.consistent(),
    ensures
        match since_start(sample_timestamp_ms, profile_start_time_ms) {
            Some(elapsed) => match stats.profile(elapsed) {
                Some(profile) => out matches Some(event) && event.trace_id@ == trace_id@
                    && event.summary() == (EventSummary::Profile {
                    command: command_ref@,
                    profile,
                }),
                None => out is None,
            },
            None => out is None,
        },
{
    if sample_timestamp_ms < 0 {
        return None;
    }
    let sample: u64 = sample_timestamp_ms as u64;
    docker_profile_event(
        trace_id,
        command_ref,
        stats,
        sample.saturating_sub(profile_start_time_ms),
    )
}

/// The event for the statistics of a container, with the time read from
/// the statistics themselves.  Where the time cannot be read there is no
/// event.
pub fn docker_stats_to_event(
    trace_id: &String,
    command_ref: &String,
    stats: &Stats,
    profile_start_time_ms: u64,
) -> (out: Option<Event>)
    requires
        stats.consistent(),
    ensures
        match timestamp_millis_of(stats.read@) {
            Some(sample_timestamp_ms) => match since_start(
                sample_timestamp_ms,
                profile_start_time_ms,
            ) {
                Some(elapsed) => match stats.profile(elapsed) {
                    Some(profile) => out matches Some(event) && event.trace_id@ == trace_id@
                        && event.summary() == (EventSummary::Profile {
                        command: command_ref@,
                        profile,
                    }),
                    None => out is None,
                },
                None => out is None,
            },
            None => out is None,
        },
{
    match parse_timestamp_millis(stats.read.as_str()) {
        Some(sample_timestamp_ms) => docker_stats_event_at(
            trace_id,
            command_ref,
            stats,
            sample_timestamp_ms,
            profile_start_time_ms,
        ),
        None => None,
    }
}

} // verus!
