//! How many groups of threads a kernel over all splats takes.

use vstd::prelude::*;

verus! {

/// Threads in a group.
pub const WORKGROUP: u32 = 256;

/// Groups needed for one thread per splat.
pub open spec fn groups(n: nat) -> nat {
    (n + WORKGROUP - 1) as nat / WORKGROUP as nat
}

/// Groups needed for one thread per splat.
pub fn workgroups(n: u32) -> (r: u32)
    ensures
        r == groups(n as nat),
{
    if n % WORKGROUP == 0 {
        n / WORKGROUP
    } else {
        n / WORKGROUP + 1
    }
}

/// Every splat has a thread, and no group is without a splat: thread `unit` of
/// group `group` takes splat `group * WORKGROUP + unit`.
pub proof fn law_every_splat_has_one_thread(n: nat, i: int)
    requires
        0 <= i < n,
    ensures
        0 <= i / (WORKGROUP as int) < groups(n),
        i == i / (WORKGROUP as int) * WORKGROUP + i % (WORKGROUP as int),
        (groups(n) - 1) * WORKGROUP < n <= groups(n) * WORKGROUP,
{
}

/// The groups are the fewest of 256 threads that reach every splat, and there
/// are none without splats.
pub proof fn law_groups_are_the_fewest(n: nat, more: nat)
    ensures
        n <= groups(n) * 256,
        n <= more * 256 ==> groups(n) <= more,
        groups(0) == 0,
{
}

/// The groups that are launched reach every splat, and without the last of them
/// some splat would have no thread.
pub proof fn law_launched_groups_cover_the_splats(n: u32, r: u32)
    requires
        call_ensures(workgroups, (n,), r),
    ensures
        n <= r * 256,
        n > 0 ==> (r - 1) * 256 < n,
        n == 0 ==> r == 0,
{
}

} // verus!
