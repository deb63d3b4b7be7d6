//! Cluster host records: capacity checks on each host and the mapping of a
//! cluster record onto the tagged attribute map that a key-value store puts.
mod attr;
mod mapping;
mod numeral;
mod store;
mod model;
mod validate;

pub use attr::{AttrValue, Item};
pub use model::{ClusterInfo, ClusterModel, Host, HostModel};
pub use numeral::{
    decimal_greater, fraction_digits, is_decimal, magnitude_digits, numeral_greater, numeral_value,
    scaled_value,
};
pub use validate::{
    lemma_host_within_capacity_not_reported, lemma_offending_host_reported_once, offending_hosts,
    over_capacity, validate_hosts,
};
pub use mapping::{
    cluster_item, decode_cluster, decode_host, encodes_cluster, encodes_host, host_item,
    lemma_cluster_round_trip, lemma_no_hosts_empty_list,
};
pub use store::{
    is_version_token, plan_write, put_request, stamp_version, table_name, table_spec, KeyRole, LoadError, PutRequest,
    ScalarType, TableSpec, WritePlan,
};
