use vstd::prelude::*;

verus! {

/// The figures of one host as plain text.
pub struct HostModel {
    pub identifier: Seq<char>,
    pub capacity: Seq<char>,
    pub used: Seq<char>,
}

/// One cluster submission as plain text and a sequence of hosts.
pub struct ClusterModel {
    pub cluster_id: Seq<char>,
    pub saturated_hosts_count: Seq<char>,
    pub cluster: Seq<char>,
    pub hosts: Seq<HostModel>,
}

/// One machine of a cluster; `capacity` and `used` are numerals held as text.
#[derive(Debug)]
pub struct Host {
    pub identifier: String,
    pub capacity: String,
    pub used: String,
}

/// One cluster submission. `cluster_id` is the store's partition key.
#[derive(Debug)]
pub struct ClusterInfo {
    pub cluster_id: String,
    pub saturated_hosts_count: String,
    pub cluster: String,
    pub hosts: Vec<Host>,
}

impl View for Host {
    type V = HostModel;

    open spec fn view(&self) -> HostModel {
        HostModel { identifier: self.identifier@, capacity: self.capacity@, used: self.used@ }
    }
}

impl View for ClusterInfo {
    type V = ClusterModel;

    open spec fn view(&self) -> ClusterModel {
        ClusterModel {
            cluster_id: self.cluster_id@,
            saturated_hosts_count: self.saturated_hosts_count@,
            cluster: self.cluster@,
            hosts: self.hosts@.map_values(|h: Host| h@),
        }
    }
}

impl Host {
    pub fn new(identifier: String, capacity: String, used: String) -> (r: Host)
        ensures
            r.identifier == identifier,
            r.capacity == capacity,
            r.used == used,
    {
        Host { identifier, capacity, used }
    }
}

impl ClusterInfo {
    pub fn new(
        cluster_id: String,
        saturated_hosts_count: String,
        cluster: String,
        hosts: Vec<Host>,
    ) -> (r: ClusterInfo)
        ensures
            r.cluster_id == cluster_id,
            r.saturated_hosts_count == saturated_hosts_count,
            r.cluster == cluster,
            r.hosts == hosts,
    {
        ClusterInfo { cluster_id, saturated_hosts_count, cluster, hosts }
    }
}

} // verus!
