//! The job registry: each job is declared once, before the scheduler
//! starts, with a required positive interval. The scheduler itself is
//! the surrounding program's loop; the rules it must follow are checked
//! here.

use vstd::prelude::*;

use crate::errors::ConfigError;

verus! {

/// The default time-to-live marker on every written record: 12 hours.
pub const DEFAULT_TTL_SECONDS: i64 = 60 * 60 * 12;

/// The default grace period before an offline record is deleted.
pub const DEFAULT_DELETE_GRACE_SECONDS: i64 = 60;

/// One registered job: its name and the seconds between runs.
pub struct FetchNode {
    pub name: String,
    pub interval: u64,
}

/// Run-wide configuration, supplied at process start and immutable
/// thereafter.
#[derive(Clone, Copy)]
pub struct EngineConfig {
    pub ttl_seconds: i64,
    pub delete_grace_seconds: i64,
    pub allow_overlapping_cycles: bool,
}

impl EngineConfig {
    /// Whether the configuration can drive reconciliation at all.
    pub fn valid(&self) -> (b: bool)
        ensures
            b == (0 <= self.ttl_seconds && 0 <= self.delete_grace_seconds),
    {
        0 <= self.ttl_seconds && 0 <= self.delete_grace_seconds
    }
}

/// The registry of scheduled jobs, populated before any job runs.
pub struct Registry {
    pub nodes: Vec<FetchNode>,
}

impl Registry {
    /// An empty registry.
    pub fn new() -> (r: Registry)
        ensures
            r.nodes@.len() == 0,
    {
        Registry { nodes: Vec::new() }
    }

    /// Registers one job. The interval is required and must be
    /// positive; a declaration without it is a fatal configuration
    /// error, reported before scheduling starts.
    pub fn register(&mut self, name: String, interval: Option<u64>) -> (result: Result<
        (),
        ConfigError,
    >)
        ensures
            match interval {
                Option::None => result == Result::<(), ConfigError>::Err(
                    ConfigError::MissingInterval,
                ) && final(self).nodes@ == old(self).nodes@,
                Option::Some(iv) => {
                    if iv == 0 {
                        result == Result::<(), ConfigError>::Err(ConfigError::InvalidInterval)
                            && final(self).nodes@ == old(self).nodes@
                    } else {
                        &&& result is Ok
                        &&& final(self).nodes@.len() == old(self).nodes@.len() + 1
                        &&& final(self).nodes@.last().name@ == name@
                        &&& final(self).nodes@.last().interval == iv
                        &&& forall|i: int|
                            0 <= i < old(self).nodes@.len() ==> final(self).nodes@[i] == old(
                                self,
                            ).nodes@[i]
                    }
                },
            },
    {
        match interval {
            Option::None => Result::Err(ConfigError::MissingInterval),
            Option::Some(iv) => {
                if iv == 0 {
                    Result::Err(ConfigError::InvalidInterval)
                } else {
                    self.nodes.push(FetchNode { name, interval: iv });
                    Result::Ok(())
                }
            },
        }
    }
}

} // verus!
