//! OpenBSD: the records that `sysctl` lists for
//! `CTL_KERN.KERN_PROC.(KERN_PROC_PID | KERN_PROC_SHOW_THREADS).<pid>`: one
//! per thread, and one for the process itself, whose thread id is -1.
//!
//! The caller passes the size of the record it expects and how many fit in
//! its buffer. A first call gives the length of the list; the buffer is then
//! made an eighth larger in records (as libkvm's `kvm_getprocs` rounds up its
//! buffer) and filled by a second call.
use vstd::prelude::*;

use crate::{non_zero, nonzero};

verus! {

/// What the count needs of a `kinfo_proc` record.
pub struct ProcRecord {
    /// `p_pid`.
    pub pid: i32,
    /// `p_tid`.
    pub tid: i32,
}

/// The filled list and the id of the current process.
pub struct ProcList {
    pub pid: i32,
    pub records: Vec<ProcRecord>,
}

/// Records to make room for, where the first call reported `reported_len`
/// bytes of records of `record_len` bytes: that many records and an eighth
/// more, rounded down.
pub open spec fn buffer_records_for(reported_len: usize, record_len: usize) -> int {
    reported_len / record_len + reported_len / record_len / 8
}

pub fn buffer_records(reported_len: usize, record_len: usize) -> (n: usize)
    requires
        record_len > 0,
        buffer_records_for(reported_len, record_len) <= usize::MAX,
    ensures
        n == buffer_records_for(reported_len, record_len),
{
    let mut n = reported_len / record_len;
    n += n / 8;
    n
}

/// Bytes of a buffer of `records` records of `record_len` bytes.
pub fn buffer_len(records: usize, record_len: usize) -> (b: usize)
    requires
        records * record_len <= usize::MAX,
    ensures
        b == records * record_len,
{
    record_len * records
}

/// Whether the second call filled whole records, no more than the buffer
/// holds. Anything else would be a broken kernel interface, on which the
/// count is not made.
pub fn fill_is_sound(filled_len: usize, record_len: usize, records: usize) -> (ok: bool)
    requires
        record_len > 0,
        records * record_len <= usize::MAX,
    ensures
        ok == (filled_len % record_len == 0 && filled_len <= records * record_len),
{
    filled_len % record_len == 0 && filled_len <= records * record_len
}

/// A record of one of the process's threads.
pub open spec fn is_thread(r: ProcRecord, pid: i32) -> bool {
    r.pid == pid && r.tid != -1
}

pub open spec fn thread_records(l: ProcList) -> Seq<ProcRecord> {
    l.records@.filter(|r: ProcRecord| is_thread(r, l.pid))
}

/// The number of thread records of the process, where it is not zero.
pub open spec fn list_count(l: ProcList) -> Option<usize> {
    nonzero(thread_records(l).len() as usize)
}

pub fn thread_count(l: &ProcList) -> (c: Option<usize>)
    ensures
        c == list_count(*l),
{
    let ghost pred = |r: ProcRecord| is_thread(r, l.pid);
    let mut n: usize = 0;
    let mut i: usize = 0;
    while i < l.records.len()
        invariant
            i <= l.records.len(),
            n == l.records@.take(i as int).filter(pred).len(),
            pred == (|r: ProcRecord| is_thread(r, l.pid)),
        decreases l.records.len() - i,
    {
        proof {
            reveal(Seq::filter);
            assert(l.records@.take(i + 1).drop_last() =~= l.records@.take(i as int));
            l.records@.take(i as int).lemma_filter_len(pred);
        }
        let r = &l.records[i];
        if r.pid == l.pid && r.tid != -1 {
            n += 1;
        }
        i += 1;
    }
    assert(l.records@.take(i as int) =~= l.records@);
    non_zero(n)
}

/// The count reported before a list grows; no count is zero threads.
pub open spec fn count_or_zero(l: ProcList) -> int {
    match list_count(l) {
        Some(n) => n as int,
        None => 0,
    }
}

/// No records, no count.
pub proof fn law_empty_list(l: ProcList)
    requires
        l.records@.len() == 0,
    ensures
        list_count(l) is None,
{
    reveal(Seq::filter);
}

/// One more record of one of the process's threads raises the count by
/// exactly one, wherever the list stops; one more record of the process
/// itself (thread id -1) or of another process leaves it as it was.
pub proof fn law_one_more_record(l: ProcList, m: ProcList, r: ProcRecord)
    requires
        m.pid == l.pid,
        m.records@ == l.records@.push(r),
        l.records@.len() < usize::MAX,
    ensures
        r.pid == l.pid && r.tid != -1 ==> list_count(m) == Some((count_or_zero(l) + 1) as usize),
        !(r.pid == l.pid && r.tid != -1) ==> list_count(m) == list_count(l),
{
    let pred = |x: ProcRecord| is_thread(x, l.pid);
    reveal(Seq::filter);
    assert(m.records@.drop_last() =~= l.records@);
    l.records@.lemma_filter_len(pred);
    assert(thread_records(l) == l.records@.filter(pred));
    assert(thread_records(m) == m.records@.filter(pred));
}

/// Where the records come in any order, the count is the same: one more
/// thread record in front raises it by one too.
pub proof fn law_record_in_front(l: ProcList, m: ProcList, r: ProcRecord)
    requires
        m.pid == l.pid,
        m.records@ == seq![r] + l.records@,
        l.records@.len() < usize::MAX,
    ensures
        r.pid == l.pid && r.tid != -1 ==> list_count(m) == Some((count_or_zero(l) + 1) as usize),
        !(r.pid == l.pid && r.tid != -1) ==> list_count(m) == list_count(l),
{
    let pred = |x: ProcRecord| is_thread(x, l.pid);
    reveal(Seq::filter);
    Seq::filter_distributes_over_add(seq![r], l.records@, pred);
    assert(seq![r].drop_last() =~= Seq::<ProcRecord>::empty());
    assert(Seq::<ProcRecord>::empty().filter(pred) =~= Seq::<ProcRecord>::empty());
    l.records@.lemma_filter_len(pred);
    assert(thread_records(l) == l.records@.filter(pred));
    assert(thread_records(m) == m.records@.filter(pred));
}

} // verus!
