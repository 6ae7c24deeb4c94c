//! Number of threads of a process, from what the operating system reports of
//! it.
//!
//! Each system reports the threads of the running process in its own way: a
//! text record on Linux, kernel records through `sysctl` on the BSDs, a task
//! record on macOS, a snapshot of process entries on Windows. A module per
//! system holds the rules by which the count is read from that report;
//! `ProcessInfo` holds one report, and `num_threads` gives the count.
use vstd::prelude::*;

pub mod dragonfly;
pub mod freebsd;
pub mod macos;
pub mod netbsd;
pub mod openbsd;
pub mod proc_stat;
pub mod windows;

verus! {

/// What `NonZeroUsize::new` gives, in plain values: `n` where it is not zero.
pub open spec fn nonzero(n: usize) -> Option<usize> {
    if n == 0 {
        None
    } else {
        Some(n)
    }
}

pub fn non_zero(n: usize) -> (r: Option<usize>)
    ensures
        r == nonzero(n),
{
    if n == 0 {
        None
    } else {
        Some(n)
    }
}

/// Whole records of `record_len` bytes in `bytes` bytes.
pub fn whole_records(bytes: usize, record_len: usize) -> (n: usize)
    requires
        record_len > 0,
    ensures
        n == bytes / record_len,
{
    bytes / record_len
}

/// What the operating system reported of the running process.
pub enum ProcessInfo {
    /// Linux, Android: the text of `/proc/self/stat`, or nothing where it
    /// could not be read as text.
    ProcStat(Option<String>),
    /// FreeBSD: `ki_numthreads` of the record from `kinfo_getproc`, or
    /// nothing where it gave none.
    FreeBsd(Option<i32>),
    /// DragonFly BSD.
    DragonFly(dragonfly::ProcReply),
    /// macOS, iOS.
    MacOs(macos::TaskInfoReply),
    /// NetBSD: the LWP list, or nothing where a `sysctl` call failed.
    NetBsd(Option<netbsd::LwpList>),
    /// OpenBSD: the process's records, or nothing where a `sysctl` call failed.
    OpenBsd(Option<openbsd::ProcList>),
    /// Windows.
    Windows(windows::Snapshot),
}

/// The thread count that `info` reports, if it reports one.
pub open spec fn reported_threads(info: ProcessInfo) -> Option<usize> {
    match info {
        ProcessInfo::ProcStat(Some(text)) => proc_stat::stat_thread_count(text@),
        ProcessInfo::ProcStat(None) => None,
        ProcessInfo::FreeBsd(Some(t)) => nonzero(t as usize),
        ProcessInfo::FreeBsd(None) => None,
        ProcessInfo::DragonFly(r) => dragonfly::reply_count(r),
        ProcessInfo::MacOs(r) => macos::reply_count(r),
        ProcessInfo::NetBsd(Some(l)) => netbsd::list_count(l),
        ProcessInfo::NetBsd(None) => None,
        ProcessInfo::OpenBsd(Some(l)) => openbsd::list_count(l),
        ProcessInfo::OpenBsd(None) => None,
        ProcessInfo::Windows(s) => windows::snapshot_count(s),
    }
}

/// Whether `info` reports a single thread, if it reports a count.
pub open spec fn reported_single_threaded(info: ProcessInfo) -> Option<bool> {
    match reported_threads(info) {
        Some(n) => Some(n == 1),
        None => None,
    }
}

/// The number of threads of the process that `info` describes. `None` where
/// the number cannot be determined; never zero.
pub fn num_threads(info: &ProcessInfo) -> (r: Option<usize>)
    ensures
        r == reported_threads(*info),
        r matches Some(n) ==> n >= 1,
{
    match info {
        ProcessInfo::ProcStat(Some(text)) => proc_stat::thread_count(text.as_str()),
        ProcessInfo::ProcStat(None) => None,
        ProcessInfo::FreeBsd(t) => freebsd::thread_count(*t),
        ProcessInfo::DragonFly(r) => dragonfly::thread_count(r),
        ProcessInfo::MacOs(r) => macos::thread_count(r),
        ProcessInfo::NetBsd(Some(l)) => netbsd::thread_count(l),
        ProcessInfo::NetBsd(None) => None,
        ProcessInfo::OpenBsd(Some(l)) => openbsd::thread_count(l),
        ProcessInfo::OpenBsd(None) => None,
        ProcessInfo::Windows(s) => windows::thread_count(s),
    }
}

/// Whether the process that `info` describes is single-threaded. `None` where
/// the number of threads cannot be determined.
pub fn is_single_threaded(info: &ProcessInfo) -> (r: Option<bool>)
    ensures
        r == reported_single_threaded(*info),
{
    match num_threads(info) {
        Some(n) => Some(n == 1),
        None => None,
    }
}

/// A process is reported single-threaded exactly where its thread count is
/// reported as one, and `is_single_threaded` has an answer exactly where
/// `num_threads` has one.
pub proof fn law_single_threaded_means_one_thread(info: ProcessInfo)
    ensures
        reported_single_threaded(info) == Some(true) <==> reported_threads(info) == Some(1usize),
        reported_single_threaded(info) == Some(false) <==> (reported_threads(info) matches Some(n)
            && n != 1),
        reported_single_threaded(info) is None <==> reported_threads(info) is None,
{
}

/// A reported thread count is never zero.
pub proof fn law_count_is_positive(info: ProcessInfo)
    ensures
        reported_threads(info) matches Some(n) ==> n >= 1,
{
}

/// Each report is read by the rules of its own system: the count of a report
/// is the count its system's module reads from it, and a report that could not
/// be had gives none.
pub proof fn law_each_system_reads_its_report(info: ProcessInfo)
    ensures
        info matches ProcessInfo::ProcStat(Some(text)) ==> reported_threads(info)
            == proc_stat::stat_thread_count(text@),
        info matches ProcessInfo::DragonFly(r) ==> reported_threads(info) == dragonfly::reply_count(
            r,
        ),
        info matches ProcessInfo::MacOs(r) ==> reported_threads(info) == macos::reply_count(r),
        info matches ProcessInfo::NetBsd(Some(l)) ==> reported_threads(info) == netbsd::list_count(
            l,
        ),
        info matches ProcessInfo::OpenBsd(Some(l)) ==> reported_threads(info)
            == openbsd::list_count(l),
        info matches ProcessInfo::Windows(w) ==> reported_threads(info) == windows::snapshot_count(
            w,
        ),
        info matches ProcessInfo::ProcStat(None) ==> reported_threads(info) is None,
        info matches ProcessInfo::FreeBsd(None) ==> reported_threads(info) is None,
        info matches ProcessInfo::NetBsd(None) ==> reported_threads(info) is None,
        info matches ProcessInfo::OpenBsd(None) ==> reported_threads(info) is None,
{
}

/// FreeBSD: a record gives its thread count, whatever its value, where it is
/// not zero.
pub proof fn law_freebsd_record(t: i32)
    ensures
        t != 0 ==> reported_threads(ProcessInfo::FreeBsd(Some(t))) == Some(t as usize),
        t == 0 ==> reported_threads(ProcessInfo::FreeBsd(Some(t))) is None,
{
    if t != 0 {
        assert(t as usize != 0) by (bit_vector)
            requires
                t != 0,
        ;
    }
}

} // verus!
