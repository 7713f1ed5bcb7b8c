//! Settings for pinning a worker thread to a core and a NUMA node.

use vstd::prelude::*;

verus! {

/// Where to pin a thread: a core (Linux), a NUMA node whose memory to bind
/// (Linux), and an affinity tag (macOS). `None` leaves that setting alone.
#[derive(Clone, Copy, Debug, Default)]
pub struct PinConfig {
    pub core_id: Option<usize>,
    pub numa_node: Option<u16>,
    pub mem_bind: bool,
    pub mac_affinity_tag: Option<i32>,
}

/// Bits in a Linux CPU set (`CPU_SETSIZE`).
pub const CPU_SET_BITS: usize = 1024;

/// The 64-bit word of a CPU set that holds `core`, and that core's bit in
/// it; `None` when `core` lies outside the set, so nothing is written.
pub fn cpu_set_bit(core: usize) -> (r: Option<(usize, u64)>)
    ensures
        core < CPU_SET_BITS ==> r == Some(((core / 64) as usize, 1u64 << ((core % 64) as u64))),
        core >= CPU_SET_BITS ==> r is None,
{
    if core >= CPU_SET_BITS {
        return None;
    }
    let off = (core % 64) as u64;
    Some((core / 64, 1u64 << off))
}

/// The memory-policy mask that binds to NUMA node `node`; `None` for nodes
/// that a single 64-bit mask cannot name, in which case no policy is set.
pub fn numa_node_mask(node: u16) -> (r: Option<u64>)
    ensures
        node < 64 ==> r == Some(1u64 << (node as u64)),
        node >= 64 ==> r is None,
{
    if node < 64 {
        Some(1u64 << (node as u64))
    } else {
        None
    }
}

} // verus!
