use vstd::prelude::*;

use crate::get_data::processes::{ProcessInfo, ProcessInfoView};

verus! {

/// The report that a worker sends to the head once a second.
///
/// Floating-point readings are carried by their IEEE-754 bit patterns
/// (`f32::to_bits` / `f64::to_bits`) and the time stamp by its UNIX seconds
/// and nanoseconds, so that every value is kept exactly.
#[derive(Debug)]
pub struct WorkerInfo {
    pub hostname: String,
    pub timestamp_secs: i64,
    pub timestamp_nanos: u32,
    pub cpu_usage_bits: u32,
    pub ram_used_gb_bits: u64,
    pub ram_total_gb_bits: u64,
    pub load_average_1min_bits: u64,
    pub process_count: usize,
    pub status: String,
    pub processes: Vec<ProcessInfo>,
    pub cores_bits: Vec<u32>,
    pub cpu_temp: String,
}

/// The mathematical value of a [`WorkerInfo`].
pub struct WorkerInfoView {
    pub hostname: Seq<char>,
    pub timestamp_secs: i64,
    pub timestamp_nanos: u32,
    pub cpu_usage_bits: u32,
    pub ram_used_gb_bits: u64,
    pub ram_total_gb_bits: u64,
    pub load_average_1min_bits: u64,
    pub process_count: usize,
    pub status: Seq<char>,
    pub processes: Seq<ProcessInfoView>,
    pub cores_bits: Seq<u32>,
    pub cpu_temp: Seq<char>,
}

pub open spec fn processes_view(s: Seq<ProcessInfo>) -> Seq<ProcessInfoView> {
    s.map_values(|p: ProcessInfo| p@)
}

impl View for WorkerInfo {
    type V = WorkerInfoView;

    open spec fn view(&self) -> WorkerInfoView {
        WorkerInfoView {
            hostname: self.hostname@,
            timestamp_secs: self.timestamp_secs,
            timestamp_nanos: self.timestamp_nanos,
            cpu_usage_bits: self.cpu_usage_bits,
            ram_used_gb_bits: self.ram_used_gb_bits,
            ram_total_gb_bits: self.ram_total_gb_bits,
            load_average_1min_bits: self.load_average_1min_bits,
            process_count: self.process_count,
            status: self.status@,
            processes: processes_view(self.processes@),
            cores_bits: self.cores_bits@,
            cpu_temp: self.cpu_temp@,
        }
    }
}

impl Clone for WorkerInfo {
    fn clone(&self) -> (res: Self)
        ensures
            res@ == self@,
    {
        let processes = self.processes.clone();
        let cores_bits = self.cores_bits.clone();
        proof {
            assert forall|i: int| 0 <= i < self.processes@.len() implies
                #[trigger] processes@[i]@ == self.processes@[i]@ by {
                assert(cloned::<ProcessInfo>(self.processes[i], processes[i]));
            }
            assert(processes_view(processes@) =~= processes_view(self.processes@));
            assert(cores_bits@ =~= self.cores_bits@);
        }
        WorkerInfo {
            hostname: self.hostname.clone(),
            timestamp_secs: self.timestamp_secs,
            timestamp_nanos: self.timestamp_nanos,
            cpu_usage_bits: self.cpu_usage_bits,
            ram_used_gb_bits: self.ram_used_gb_bits,
            ram_total_gb_bits: self.ram_total_gb_bits,
            load_average_1min_bits: self.load_average_1min_bits,
            process_count: self.process_count,
            status: self.status.clone(),
            processes,
            cores_bits,
            cpu_temp: self.cpu_temp.clone(),
        }
    }
}

} // verus!
