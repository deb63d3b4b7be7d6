use vstd::prelude::*;
use crate::attr::{is_n, is_s, AttrValue, Item};
use crate::model::{ClusterInfo, ClusterModel, Host, HostModel};

verus! {

/// `m` is the attribute map of host `h`: `identifier` as a string,
/// `capacity` and `used` as numbers, and no other attribute.
pub open spec fn encodes_host(m: Map<Seq<char>, AttrValue>, h: HostModel) -> bool {
    &&& m.dom() == set!["identifier"@, "capacity"@, "used"@]
    &&& is_s(m["identifier"@], h.identifier)
    &&& is_n(m["capacity"@], h.capacity)
    &&& is_n(m["used"@], h.used)
}

/// `v` is a nested map that encodes host `h`.
pub open spec fn encodes_host_value(v: AttrValue, h: HostModel) -> bool {
    v matches AttrValue::M(hm) && hm.wf() && encodes_host(hm@, h)
}

/// `m` is the attribute map of cluster `c`: `cluster_id` and
/// `saturated_hosts_count` as numbers, `cluster` as a string, and `hosts` as a
/// list holding one nested map per host, in the order of the hosts.
pub open spec fn encodes_cluster(m: Map<Seq<char>, AttrValue>, c: ClusterModel) -> bool {
    &&& m.dom() == set!["cluster_id"@, "saturated_hosts_count"@, "cluster"@, "hosts"@]
    &&& is_n(m["cluster_id"@], c.cluster_id)
    &&& is_n(m["saturated_hosts_count"@], c.saturated_hosts_count)
    &&& is_s(m["cluster"@], c.cluster)
    &&& m["hosts"@] matches AttrValue::L(v) && v@.len() == c.hosts.len() && forall|i: int|
        0 <= i < v@.len() ==> encodes_host_value(#[trigger] v@[i], c.hosts[i])
}

/// The text that a string or a number carries.
pub open spec fn text_of(v: AttrValue) -> Seq<char> {
    match v {
        AttrValue::S(x) => x@,
        AttrValue::N(x) => x@,
        _ => Seq::empty(),
    }
}

/// The host that an attribute map describes, if it has exactly the attributes
/// of a host, each with its wire type.
pub open spec fn decode_host(m: Map<Seq<char>, AttrValue>) -> Option<HostModel> {
    if m.dom() == set!["identifier"@, "capacity"@, "used"@] && m["identifier"@] is S
        && m["capacity"@] is N && m["used"@] is N {
        Some(
            HostModel {
                identifier: text_of(m["identifier"@]),
                capacity: text_of(m["capacity"@]),
                used: text_of(m["used"@]),
            },
        )
    } else {
        None
    }
}

/// The host that a list element describes, if it is a nested host map.
pub open spec fn decode_host_value(v: AttrValue) -> Option<HostModel> {
    match v {
        AttrValue::M(hm) => decode_host(hm@),
        _ => None,
    }
}

/// The cluster that an attribute map describes, if it has exactly the
/// attributes of a cluster, each with its wire type.
pub open spec fn decode_cluster(m: Map<Seq<char>, AttrValue>) -> Option<ClusterModel> {
    if m.dom() == set!["cluster_id"@, "saturated_hosts_count"@, "cluster"@, "hosts"@]
        && m["cluster_id"@] is N && m["saturated_hosts_count"@] is N && m["cluster"@] is S
        && m["hosts"@] is L && forall|i: int|
        0 <= i < m["hosts"@]->L_0@.len() ==> #[trigger] decode_host_value(m["hosts"@]->L_0@[i]) is Some {
        let v = m["hosts"@]->L_0@;
        Some(
            ClusterModel {
                cluster_id: text_of(m["cluster_id"@]),
                saturated_hosts_count: text_of(m["saturated_hosts_count"@]),
                cluster: text_of(m["cluster"@]),
                hosts: Seq::new(v.len(), |i: int| decode_host_value(v[i])->Some_0),
            },
        )
    } else {
        None
    }
}

/// Reading the attribute map of a cluster back gives the cluster itself:
/// the mapping keeps every field's value and wire type.
pub proof fn lemma_cluster_round_trip(m: Map<Seq<char>, AttrValue>, c: ClusterModel)
    requires
        encodes_cluster(m, c),
    ensures
        decode_cluster(m) == Some(c),
{
    let v = m["hosts"@]->L_0@;
    assert forall|i: int| 0 <= i < v.len() implies #[trigger] decode_host_value(v[i]) == Some(
        c.hosts[i],
    ) by {
        assert(encodes_host_value(v[i], c.hosts[i]));
    }
    let d = decode_cluster(m)->Some_0;
    assert(d.hosts =~= c.hosts);
}

/// A cluster without hosts maps to an empty list of hosts.
pub proof fn lemma_no_hosts_empty_list(m: Map<Seq<char>, AttrValue>, c: ClusterModel)
    requires
        encodes_cluster(m, c),
        c.hosts.len() == 0,
    ensures
        m["hosts"@] matches AttrValue::L(v) && v@.len() == 0,
{
}

/// The attribute map of a host.
pub fn host_item(h: Host) -> (r: Item)
    ensures
        r.wf(),
        encodes_host(r@, h@),
{
    proof {
        reveal_strlit("identifier");
        assert("identifier"@.len() == 10);
        reveal_strlit("capacity");
        assert("capacity"@.len() == 8);
        reveal_strlit("used");
        assert("used"@.len() == 4);
    }
    let mut r = Item::new();
    r.insert("identifier".to_owned(), AttrValue::S(h.identifier));
    r.insert("capacity".to_owned(), AttrValue::N(h.capacity));
    r.insert("used".to_owned(), AttrValue::N(h.used));
    proof {
        assert(r@.dom() =~= set!["identifier"@, "capacity"@, "used"@]);
    }
    r
}

/// The attribute map of a cluster, with one nested map per host in order.
pub fn cluster_item(c: ClusterInfo) -> (r: Item)
    ensures
        r.wf(),
        encodes_cluster(r@, c@),
{
    let ghost cv = c@;
    let ClusterInfo { cluster_id, saturated_hosts_count, cluster, hosts } = c;
    let mut v: Vec<AttrValue> = Vec::new();
    let n = hosts.len();
    let mut rest = hosts;
    let mut i: usize = 0;
    while i < n
        invariant
            n == cv.hosts.len(),
            i <= n,
            rest@.len() == n - i,
            forall|j: int| 0 <= j < n - i ==> (#[trigger] rest@[j])@ == cv.hosts[i + j],
            v@.len() == i,
            forall|j: int| 0 <= j < i ==> encodes_host_value(#[trigger] v@[j], cv.hosts[j]),
        decreases n - i,
    {
        let ghost old_rest = rest@;
        let h = rest.remove(0);
        proof {
            assert(h@ == cv.hosts[i as int]);
            assert forall|j: int| 0 <= j < n - i - 1 implies (#[trigger] rest@[j])@ == cv.hosts[i
                + 1 + j] by {
                assert(rest@[j] == old_rest[j + 1]);
            }
        }
        v.push(AttrValue::M(host_item(h)));
        i = i + 1;
    }
    proof {
        reveal_strlit("cluster_id");
        assert("cluster_id"@.len() == 10);
        reveal_strlit("saturated_hosts_count");
        assert("saturated_hosts_count"@.len() == 21);
        reveal_strlit("cluster");
        assert("cluster"@.len() == 7);
        reveal_strlit("hosts");
        assert("hosts"@.len() == 5);
    }
    let mut r = Item::new();
    r.insert("cluster_id".to_owned(), AttrValue::N(cluster_id));
    r.insert("saturated_hosts_count".to_owned(), AttrValue::N(saturated_hosts_count));
    r.insert("cluster".to_owned(), AttrValue::S(cluster));
    r.insert("hosts".to_owned(), AttrValue::L(v));
    proof {
        assert(r@.dom() =~= set!["cluster_id"@, "saturated_hosts_count"@, "cluster"@, "hosts"@]);
    }
    r
}

} // verus!
