use vstd::prelude::*;
use crate::model::{Host, HostModel};
use crate::numeral::{decimal_greater, fraction_digits, is_decimal, numeral_greater, pow10, scaled_value};

verus! {

/// A host uses more than its capacity: both figures are decimal numerals and
/// `used` has the larger value.
pub open spec fn over_capacity(h: HostModel) -> bool {
    decimal_greater(h.used, h.capacity)
}

/// The positions of the hosts that use more than their capacity, in order.
pub open spec fn offending_hosts(s: Seq<HostModel>) -> Seq<int>
    decreases s.len(),
{
    if s.len() == 0 {
        Seq::empty()
    } else if over_capacity(s.last()) {
        offending_hosts(s.drop_last()).push(s.len() - 1)
    } else {
        offending_hosts(s.drop_last())
    }
}

proof fn lemma_offending_hosts(s: Seq<HostModel>)
    ensures
        forall|j: int| 0 <= j < offending_hosts(s).len() ==> 0 <= #[trigger] offending_hosts(s)[j] < s.len(),
        forall|j: int, k: int| 0 <= j < k < offending_hosts(s).len() ==> offending_hosts(s)[j] < offending_hosts(s)[k],
        forall|j: int| 0 <= j < offending_hosts(s).len() ==> over_capacity(s[#[trigger] offending_hosts(s)[j]]),
        forall|i: int| 0 <= i < s.len() && over_capacity(s[i]) ==> exists|j: int| 0 <= j < offending_hosts(s).len() && #[trigger] offending_hosts(s)[j] == i,
    decreases s.len(),
{
    if s.len() > 0 {
        let t = s.drop_last();
        lemma_offending_hosts(t);
        let r = offending_hosts(s);
        let q = offending_hosts(t);
        assert forall|j: int| 0 <= j < q.len() implies over_capacity(s[#[trigger] q[j]]) by {
            assert(s[q[j]] == t[q[j]]);
        }
        assert forall|i: int| 0 <= i < s.len() && over_capacity(s[i]) implies exists|j: int| 0 <= j < r.len() && #[trigger] r[j] == i by {
            if i < s.len() - 1 {
                assert(t[i] == s[i]);
                let j = choose|j: int| 0 <= j < q.len() && #[trigger] q[j] == i;
                assert(r[j] == q[j]);
            } else {
                assert(r[r.len() - 1] == i);
            }
        }
    }
}

/// A host that uses more than its capacity is reported at exactly one place,
/// and the report names it.
pub proof fn lemma_offending_host_reported_once(s: Seq<HostModel>, i: int)
    requires
        0 <= i < s.len(),
        over_capacity(s[i]),
    ensures
        exists|j: int| 0 <= j < offending_hosts(s).len() && offending_hosts(s)[j] == i,
        forall|j: int, k: int|
            0 <= j < offending_hosts(s).len() && 0 <= k < offending_hosts(s).len()
                && offending_hosts(s)[j] == i && offending_hosts(s)[k] == i ==> j == k,
{
    lemma_offending_hosts(s);
}

/// A host whose use does not exceed its capacity is never reported.
pub proof fn lemma_host_within_capacity_not_reported(s: Seq<HostModel>, i: int)
    requires
        0 <= i < s.len(),
        is_decimal(s[i].used),
        is_decimal(s[i].capacity),
        scaled_value(s[i].used) * pow10(fraction_digits(s[i].capacity).len()) <= scaled_value(
            s[i].capacity,
        ) * pow10(fraction_digits(s[i].used).len()),
    ensures
        forall|j: int| 0 <= j < offending_hosts(s).len() ==> offending_hosts(s)[j] != i,
{
    lemma_offending_hosts(s);
}

/// The positions of the hosts whose `used` exceeds their `capacity`, one
/// diagnostic each, in the order of the hosts. The hosts are left as they are.
pub fn validate_hosts(hosts: &Vec<Host>) -> (r: Vec<usize>)
    ensures
        r@.map_values(|x: usize| x as int) == offending_hosts(hosts@.map_values(|h: Host| h@)),
{
    let ghost all = hosts@.map_values(|h: Host| h@);
    let mut r: Vec<usize> = Vec::new();
    let mut i: usize = 0;
    while i < hosts.len()
        invariant
            i <= hosts@.len(),
            all == hosts@.map_values(|h: Host| h@),
            r@.map_values(|x: usize| x as int) == offending_hosts(all.take(i as int)),
        decreases hosts@.len() - i,
    {
        let ghost before = r@;
        let h = &hosts[i];
        proof {
            assert(all.take(i + 1).drop_last() =~= all.take(i as int));
            assert(all.take(i + 1).last() == h@);
        }
        if numeral_greater(h.used.as_str(), h.capacity.as_str()) {
            r.push(i);
            proof {
                assert(r@.map_values(|x: usize| x as int) =~= before.map_values(|x: usize| x as int).push(i as int));
            }
        }
        i = i + 1;
    }
    proof {
        assert(all.take(i as int) =~= all);
    }
    r
}

} // verus!
