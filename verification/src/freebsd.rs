//! FreeBSD: the process record that `kinfo_getproc` gives.
use vstd::prelude::*;

use crate::{non_zero, nonzero};

verus! {

/// `ki_numthreads` of the record, or nothing where `kinfo_getproc` gave no
/// record: the count is that field, where it is not zero.
pub fn thread_count(record_threads: Option<i32>) -> (c: Option<usize>)
    ensures
        c == match record_threads {
            Some(t) => nonzero(t as usize),
            None => None,
        },
{
    match record_threads {
        Some(t) => non_zero(t as usize),
        None => None,
    }
}

} // verus!
