use vstd::prelude::*;

use crate::cli::str_eq;

verus! {

/// Number of entries of `procs` (pid, name) whose name is `name`.
pub open spec fn count_named(procs: Seq<(u32, String)>, name: Seq<char>) -> nat
    decreases procs.len(),
{
    if procs.len() == 0 {
        0
    } else {
        count_named(procs.drop_last(), name) + if procs.last().1@ == name {
            1nat
        } else {
            0nat
        }
    }
}

/// Whether the process `own_pid` is the only one of its name in the process
/// table `procs` (pid, name); `None` where `own_pid` is not in the table.
pub fn is_sole_instance(own_pid: u32, procs: &Vec<(u32, String)>) -> (r: Option<bool>)
    ensures
        r is None <==> forall|i: int| 0 <= i < procs@.len() ==> procs@[i].0 != own_pid,
        r matches Some(b) ==> exists|i: int|
            0 <= i < procs@.len() && procs@[i].0 == own_pid && b == (count_named(
                procs@,
                procs@[i].1@,
            ) == 1),
{
    let n = procs.len();
    let mut k: usize = 0;
    while k < n && procs[k].0 != own_pid
        invariant
            n == procs@.len(),
            k <= n,
            forall|i: int| 0 <= i < k ==> procs@[i].0 != own_pid,
        decreases n - k,
    {
        k += 1;
    }
    if k == n {
        return None;
    }
    let name = procs[k].1.as_str();
    let mut count: usize = 0;
    let mut i: usize = 0;
    while i < n
        invariant
            n == procs@.len(),
            k < n,
            name@ == procs@[k as int].1@,
            i <= n,
            count == count_named(procs@.take(i as int), name@),
            count <= i,
        decreases n - i,
    {
        assert(procs@.take(i + 1).drop_last() =~= procs@.take(i as int));
        if str_eq(procs[i].1.as_str(), name) {
            count += 1;
        }
        i += 1;
    }
    assert(procs@.take(n as int) =~= procs@);
    Some(count == 1)
}

} // verus!
