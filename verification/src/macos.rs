//! macOS: the task record that `proc_pidinfo(pid, PROC_PIDTASKINFO, ..)` fills.
use vstd::prelude::*;

use crate::{non_zero, nonzero};

verus! {

/// The buffer, the call and the record it filled, as plain values.
pub struct TaskInfoReply {
    /// Whether the buffer for the record could be allocated.
    pub allocated: bool,
    /// Return value of `proc_pidinfo`: the number of bytes it wrote.
    pub status: i32,
    /// Size of the `proc_taskinfo` record.
    pub expected_len: usize,
    /// `pti_threadnum` of the record.
    pub record_threads: i32,
}

/// The record is trusted only where the buffer was allocated and the call
/// wrote exactly one record (its size taken as a C `int`).
pub open spec fn reply_count(r: TaskInfoReply) -> Option<usize> {
    if !r.allocated || r.status != r.expected_len as i32 {
        None
    } else {
        nonzero(r.record_threads as usize)
    }
}

pub fn thread_count(r: &TaskInfoReply) -> (c: Option<usize>)
    ensures
        c == reply_count(*r),
{
    if !r.allocated {
        return None;
    }
    if r.status != r.expected_len as i32 {
        return None;
    }
    non_zero(r.record_threads as usize)
}

/// An allocated buffer into which the call wrote exactly one record gives
/// the record's thread count, whatever its value, where it is not zero; any
/// other reply gives no count.
pub proof fn law_reply_count(r: TaskInfoReply)
    ensures
        r.allocated && r.status == r.expected_len as i32 && r.record_threads != 0 ==> reply_count(r)
            == Some(r.record_threads as usize),
        r.record_threads == 0 ==> reply_count(r) is None,
        !r.allocated ==> reply_count(r) is None,
        r.status != r.expected_len as i32 ==> reply_count(r) is None,
{
    let t = r.record_threads;
    if t != 0 {
        assert(t as usize != 0) by (bit_vector)
            requires
                t != 0,
        ;
    }
}

} // verus!
