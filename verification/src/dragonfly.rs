//! DragonFly BSD: the process record that `sysctl` gives for
//! `CTL_KERN.KERN_PROC.KERN_PROC_PID.<pid>`.
use vstd::prelude::*;

use crate::{non_zero, nonzero};

verus! {

/// The `sysctl` call and the record it filled, as plain values.
pub struct ProcReply {
    /// Return value of `sysctl`.
    pub status: i32,
    /// Length of the record that the kernel wrote.
    pub len: usize,
    /// Size of the `kinfo_proc` record that the caller expects.
    pub expected_len: usize,
    /// Id of the current process (`getpid`).
    pub pid: i32,
    /// `kp_pid` of the record.
    pub record_pid: i32,
    /// `kp_nthreads` of the record.
    pub record_threads: i32,
}

/// The record is trusted only where the call succeeded, filled a record of the
/// expected size, and that record is the current process's.
pub open spec fn reply_count(r: ProcReply) -> Option<usize> {
    if r.status != 0 || r.len != r.expected_len {
        None
    } else if r.record_pid == r.pid {
        nonzero(r.record_threads as usize)
    } else {
        None
    }
}

pub fn thread_count(r: &ProcReply) -> (c: Option<usize>)
    ensures
        c == reply_count(*r),
{
    if r.status != 0 || r.len != r.expected_len {
        None
    } else if r.record_pid == r.pid {
        non_zero(r.record_threads as usize)
    } else {
        None
    }
}

/// A successful reply of the expected length whose record is the current
/// process's gives the record's thread count, whatever its value, where it
/// is not zero; any other reply gives no count.
pub proof fn law_reply_count(r: ProcReply)
    ensures
        r.status == 0 && r.len == r.expected_len && r.record_pid == r.pid && r.record_threads != 0
            ==> reply_count(r) == Some(r.record_threads as usize),
        r.record_threads == 0 ==> reply_count(r) is None,
        r.status != 0 ==> reply_count(r) is None,
        r.len != r.expected_len ==> reply_count(r) is None,
        r.record_pid != r.pid ==> reply_count(r) is None,
{
    let t = r.record_threads;
    if t != 0 {
        assert(t as usize != 0) by (bit_vector)
            requires
                t != 0,
        ;
    }
}

} // verus!
