//! NetBSD: the light-weight processes (LWPs) that `sysctl` lists for
//! `CTL_KERN.KERN_LWP.<pid>`.
//!
//! The record of the process also holds an LWP count, but exited threads may
//! leave idle or zombie LWPs behind, so the LWPs are listed and counted.
//! The list is asked for in two calls, one for its size and one to fill a
//! buffer; where the thread count grew in between, the second call fails for
//! want of memory and both are made again.
use vstd::prelude::*;

use crate::{non_zero, nonzero};

verus! {

/// What the count needs of a `kinfo_lwp` record.
pub struct Lwp {
    /// `l_pid`, as a C `int`.
    pub pid: i32,
    /// `l_stat`, as a C `int`.
    pub state: i32,
}

/// The filled list, with the id of the current process and the two states
/// (`LSIDL`, `LSZOMB`) of LWPs that are no running thread.
pub struct LwpList {
    pub pid: i32,
    pub idle_state: i32,
    pub zombie_state: i32,
    pub lwps: Vec<Lwp>,
}

/// What to do after the call that fills the buffer.
pub enum Fill {
    /// The buffer holds the list.
    Done,
    /// The list outgrew the buffer: ask for its size again.
    Retry,
    /// The list cannot be had.
    Failed,
}

/// The call succeeded; or it failed for want of memory, and is made again; or
/// it failed otherwise.
pub fn after_fill(status: i32, out_of_memory: bool) -> (f: Fill)
    ensures
        status == 0 ==> f is Done,
        status != 0 && out_of_memory ==> f is Retry,
        status != 0 && !out_of_memory ==> f is Failed,
{
    if status == 0 {
        Fill::Done
    } else if out_of_memory {
        Fill::Retry
    } else {
        Fill::Failed
    }
}

/// An LWP of the process that is neither idle nor a zombie.
pub open spec fn is_live(l: Lwp, pid: i32, idle_state: i32, zombie_state: i32) -> bool {
    l.pid == pid && l.state != idle_state && l.state != zombie_state
}

pub open spec fn live_lwps(l: LwpList) -> Seq<Lwp> {
    l.lwps@.filter(|x: Lwp| is_live(x, l.pid, l.idle_state, l.zombie_state))
}

/// The number of live LWPs of the process, where it is not zero.
pub open spec fn list_count(l: LwpList) -> Option<usize> {
    nonzero(live_lwps(l).len() as usize)
}

pub fn thread_count(l: &LwpList) -> (c: Option<usize>)
    ensures
        c == list_count(*l),
{
    let ghost pred = |x: Lwp| is_live(x, l.pid, l.idle_state, l.zombie_state);
    let mut n: usize = 0;
    let mut i: usize = 0;
    while i < l.lwps.len()
        invariant
            i <= l.lwps.len(),
            n == l.lwps@.take(i as int).filter(pred).len(),
            pred == (|x: Lwp| is_live(x, l.pid, l.idle_state, l.zombie_state)),
        decreases l.lwps.len() - i,
    {
        proof {
            reveal(Seq::filter);
            assert(l.lwps@.take(i + 1).drop_last() =~= l.lwps@.take(i as int));
            l.lwps@.take(i as int).lemma_filter_len(pred);
        }
        let x = &l.lwps[i];
        if x.pid == l.pid && x.state != l.idle_state && x.state != l.zombie_state {
            n += 1;
        }
        i += 1;
    }
    assert(l.lwps@.take(i as int) =~= l.lwps@);
    non_zero(n)
}

/// The count reported before a list grows; no count is zero LWPs.
pub open spec fn count_or_zero(l: LwpList) -> int {
    match list_count(l) {
        Some(n) => n as int,
        None => 0,
    }
}

/// No LWPs, no count.
pub proof fn law_empty_list(l: LwpList)
    requires
        l.lwps@.len() == 0,
    ensures
        list_count(l) is None,
{
    reveal(Seq::filter);
}

/// One more LWP record, of the process, neither idle nor a zombie, raises
/// the count by exactly one, whatever the list's length; one more record of
/// another process, or idle, or a zombie, leaves the count as it was.
pub proof fn law_one_more_lwp(l: LwpList, m: LwpList, x: Lwp)
    requires
        m.pid == l.pid,
        m.idle_state == l.idle_state,
        m.zombie_state == l.zombie_state,
        m.lwps@ == l.lwps@.push(x),
        l.lwps@.len() < usize::MAX,
    ensures
        x.pid == l.pid && x.state != l.idle_state && x.state != l.zombie_state ==> list_count(m)
            == Some((count_or_zero(l) + 1) as usize),
        !(x.pid == l.pid && x.state != l.idle_state && x.state != l.zombie_state) ==> list_count(m)
            == list_count(l),
{
    let pred = |y: Lwp| is_live(y, l.pid, l.idle_state, l.zombie_state);
    reveal(Seq::filter);
    assert(m.lwps@.drop_last() =~= l.lwps@);
    l.lwps@.lemma_filter_len(pred);
    assert(live_lwps(l) == l.lwps@.filter(pred));
    assert(live_lwps(m) == m.lwps@.filter(pred));
}

} // verus!
