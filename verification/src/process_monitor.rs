//! A process as the process table shows it. Reading the processes from the
//! system happens outside the library.

use vstd::prelude::*;

verus! {

/// One process: its identifier, name, CPU usage in percent (the bit
/// pattern of a single-precision value; above 100 on several cores), memory
/// in bytes and status.
#[derive(Clone, Debug)]
pub struct ProcessRow {
    pub pid: u32,
    pub name: String,
    pub cpu_usage: u32,
    pub memory_bytes: u64,
    pub status: String,
}

impl ProcessRow {
    /// A copy of this row.
    pub fn copy(&self) -> (r: ProcessRow)
        ensures
            r == *self,
    {
        ProcessRow {
            pid: self.pid,
            name: self.name.clone(),
            cpu_usage: self.cpu_usage,
            memory_bytes: self.memory_bytes,
            status: self.status.clone(),
        }
    }
}

} // verus!
