//! Windows: the process entries of a tool-help snapshot
//! (`CreateToolhelp32Snapshot`, `Process32First`, `Process32Next`).
use vstd::prelude::*;

use crate::{non_zero, nonzero};

verus! {

/// What the count needs of a `PROCESSENTRY32`.
pub struct ProcessEntry {
    /// `th32ProcessID`.
    pub process_id: u32,
    /// `cntThreads`.
    pub threads: u32,
}

/// The snapshot's entries, in the order the walk gave them, and the id of the
/// current process (`GetCurrentProcessId`).
pub struct Snapshot {
    pub pid: u32,
    pub entries: Vec<ProcessEntry>,
}

/// `cntThreads` of the first entry of `s` whose id is `pid`.
pub open spec fn first_entry_threads(s: Seq<ProcessEntry>, pid: u32) -> Option<u32>
    decreases s.len(),
{
    if s.len() == 0 {
        None
    } else if s[0].process_id == pid {
        Some(s[0].threads)
    } else {
        first_entry_threads(s.drop_first(), pid)
    }
}

pub open spec fn snapshot_count(s: Snapshot) -> Option<usize> {
    match first_entry_threads(s.entries@, s.pid) {
        Some(t) => nonzero(t as usize),
        None => None,
    }
}

/// The walk stops at the first entry of the current process: its thread
/// count, where it is not zero; nothing where no entry is the process's.
pub fn thread_count(s: &Snapshot) -> (c: Option<usize>)
    ensures
        c == snapshot_count(*s),
{
    let mut i: usize = 0;
    assert(s.entries@.skip(0) =~= s.entries@);
    while i < s.entries.len()
        invariant
            i <= s.entries.len(),
            first_entry_threads(s.entries@, s.pid) == first_entry_threads(
                s.entries@.skip(i as int),
                s.pid,
            ),
        decreases s.entries.len() - i,
    {
        assert(s.entries@.skip(i as int).drop_first() =~= s.entries@.skip(i + 1));
        if s.entries[i].process_id == s.pid {
            return non_zero(s.entries[i].threads as usize);
        }
        i += 1;
    }
    assert(s.entries@.skip(i as int).len() == 0);
    None
}

proof fn lemma_first_entry(s: Seq<ProcessEntry>, pid: u32, i: int)
    requires
        0 <= i < s.len(),
        s[i].process_id == pid,
        forall|j: int| 0 <= j < i ==> s[j].process_id != pid,
    ensures
        first_entry_threads(s, pid) == Some(s[i].threads),
    decreases i,
{
    if i > 0 {
        let t = s.drop_first();
        assert(s[0].process_id != pid);
        assert forall|j: int| 0 <= j < i - 1 implies t[j].process_id != pid by {
            assert(t[j] == s[j + 1]);
        }
        lemma_first_entry(t, pid, i - 1);
    }
}

proof fn lemma_no_entry(s: Seq<ProcessEntry>, pid: u32)
    requires
        forall|j: int| 0 <= j < s.len() ==> s[j].process_id != pid,
    ensures
        first_entry_threads(s, pid) is None,
    decreases s.len(),
{
    if s.len() > 0 {
        let t = s.drop_first();
        assert(s[0].process_id != pid);
        assert forall|j: int| 0 <= j < t.len() implies t[j].process_id != pid by {
            assert(t[j] == s[j + 1]);
        }
        lemma_no_entry(t, pid);
    }
}

/// Where the entry at `i` is the first of the current process, wherever it
/// stands in the snapshot (the last entry too), the count is its thread
/// count, where that is not zero.
pub proof fn law_first_entry_counts(s: Snapshot, i: int)
    requires
        0 <= i < s.entries@.len(),
        s.entries@[i].process_id == s.pid,
        forall|j: int| 0 <= j < i ==> s.entries@[j].process_id != s.pid,
    ensures
        s.entries@[i].threads != 0 ==> snapshot_count(s) == Some(s.entries@[i].threads as usize),
        s.entries@[i].threads == 0 ==> snapshot_count(s) is None,
{
    lemma_first_entry(s.entries@, s.pid, i);
}

/// Where no entry is the current process's, there is no count.
pub proof fn law_absent_process(s: Snapshot)
    requires
        forall|j: int| 0 <= j < s.entries@.len() ==> s.entries@[j].process_id != s.pid,
    ensures
        snapshot_count(s) is None,
{
    lemma_no_entry(s.entries@, s.pid);
}

} // verus!
