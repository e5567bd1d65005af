//! Reading the machine: every parser and piece of bookkeeping between the
//! text the kernel publishes and the numbers the popup shows.
pub mod cpu;
pub mod cpu_stat;
pub mod fans;
pub mod gpu;
pub mod storage;
pub mod sysfs;
pub mod system;
pub mod types;

use vstd::prelude::*;
use crate::hardware::cpu_stat::CpuStatHistory;
use crate::hardware::storage::StorageCollector;
use crate::hardware::system::SystemCollector;

verus! {

/// The state that survives between refreshes: the previous counters that
/// usage, throughput and per-process rates are measured against.
pub struct HardwareCollector {
    pub cpu_stat_history: CpuStatHistory,
    pub system_collector: SystemCollector,
    pub storage_collector: StorageCollector,
}

impl HardwareCollector {
    /// A collector that has seen nothing yet, so the first refresh reports
    /// no load, no throughput and no per-process rates.
    pub fn new() -> (c: Self)
        ensures
            c.cpu_stat_history.previous_overall() is None,
            c.cpu_stat_history.previous_cores() == Map::<usize, (u64, u64)>::empty(),
            c.cpu_stat_history.prev_energy_uj is None,
            c.cpu_stat_history.prev_energy_time is None,
            c.system_collector.last_net_rx == 0,
            c.system_collector.last_net_tx == 0,
            c.system_collector.last_net_time is None,
            c.system_collector.last_procs@ == Map::<u32, (String, u64)>::empty(),
            c.system_collector.last_proc_time is None,
            c.storage_collector.io.at is None,
            c.storage_collector.io.last == (0u64, 0u64),
    {
        HardwareCollector {
            cpu_stat_history: CpuStatHistory::default(),
            system_collector: SystemCollector::new(),
            storage_collector: StorageCollector::new(),
        }
    }
}

} // verus!
