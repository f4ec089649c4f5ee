//! Plain records of the system snapshot that the collectors fill in.

use vstd::prelude::*;

verus! {

/// One mounted disk.
#[derive(Debug, Clone)]
pub struct DiskInfo {
    pub name: String,
    pub mount: String,
    pub total_bytes: u64,
    pub used_bytes: u64,
    pub read_bytes_sec: u64,
    pub write_bytes_sec: u64,
}

/// One network interface.
#[derive(Debug, Clone)]
pub struct NetInterface {
    pub name: String,
    pub rx_bytes_sec: u64,
    pub tx_bytes_sec: u64,
    pub total_rx: u64,
    pub total_tx: u64,
}

} // verus!
