use vstd::prelude::*;
use crate::attr::{AttrValue, Item};
use crate::mapping::{cluster_item, encodes_cluster};
use crate::model::ClusterInfo;
use crate::validate::{offending_hosts, validate_hosts};

verus! {

/// `s` has the shape of a random (version 4) UUID in hyphenated form: 36
/// characters, hyphens at positions 8, 13, 18 and 23, the version digit `4`
/// at position 14, and lowercase hexadecimal digits elsewhere.
pub open spec fn is_version_token(s: Seq<char>) -> bool {
    &&& s.len() == 36
    &&& s[8] == '-' && s[13] == '-' && s[18] == '-' && s[23] == '-'
    &&& s[14] == '4'
    &&& forall|i: int|
        0 <= i < 36 && i != 8 && i != 13 && i != 18 && i != 23 ==> ('0' <= #[trigger] s[i] <= '9'
            || 'a' <= s[i] <= 'f')
}

/// Relies on `uuid::Uuid::new_v4` and its `Display`: a random identifier with
/// the version bits set to 4, written in lowercase hyphenated form.
#[verifier::external_body]
fn fresh_version() -> (r: String)
    ensures
        is_version_token(r@),
{
    uuid::Uuid::new_v4().to_string()
}

/// The wire type of a key attribute.
#[derive(Debug, PartialEq, Eq)]
pub enum ScalarType {
    S,
    N,
    B,
}

/// The role of a key attribute in the table's key schema.
#[derive(Debug, PartialEq, Eq)]
pub enum KeyRole {
    /// The partition key.
    Hash,
    /// The sort key.
    Range,
}

/// The schema of the table that cluster records are written to.
#[derive(Debug)]
pub struct TableSpec {
    pub table_name: String,
    pub key_name: String,
    pub key_type: ScalarType,
    pub key_role: KeyRole,
    pub read_capacity_units: i64,
    pub write_capacity_units: i64,
}

/// One unconditional put of an item into a table.
#[derive(Debug)]
pub struct PutRequest {
    pub table_name: String,
    pub item: Item,
}

/// Why a cluster record could not be loaded.
#[derive(Debug, PartialEq, Eq)]
pub enum LoadError {
    /// The file could not be opened or read.
    Io(String),
    /// The text is not a well-formed cluster record.
    Parse(String),
}

/// What a write of one cluster record does: the hosts to report as over
/// capacity, and the put to issue.
#[derive(Debug)]
pub struct WritePlan {
    pub diagnostics: Vec<usize>,
    pub request: PutRequest,
}

/// The name of the table of cluster records.
pub fn table_name() -> (r: String)
    ensures
        r@ == "servers"@,
{
    "servers".to_owned()
}

/// The table of cluster records: partition key `cluster_id`, a number, with
/// 10 read and 5 write capacity units provisioned.
pub fn table_spec() -> (r: TableSpec)
    ensures
        r.table_name@ == "servers"@,
        r.key_name@ == "cluster_id"@,
        r.key_type == ScalarType::N,
        r.key_role == KeyRole::Hash,
        r.read_capacity_units == 10,
        r.write_capacity_units == 5,
{
    TableSpec {
        table_name: table_name(),
        key_name: "cluster_id".to_owned(),
        key_type: ScalarType::N,
        key_role: KeyRole::Hash,
        read_capacity_units: 10,
        write_capacity_units: 5,
    }
}

/// A put of `item` into the table of cluster records, with `version` set to
/// the string `version` in place of any earlier value.
pub fn stamp_version(item: Item, version: String) -> (r: PutRequest)
    requires
        item.wf(),
    ensures
        r.table_name@ == "servers"@,
        r.item.wf(),
        r.item@ == item@.insert("version"@, AttrValue::S(version)),
{
    let mut item = item;
    item.insert("version".to_owned(), AttrValue::S(version));
    PutRequest { table_name: table_name(), item }
}

/// A put of `item` into the table of cluster records, stamped with a freshly
/// drawn version token.
pub fn put_request(item: Item) -> (r: PutRequest)
    requires
        item.wf(),
    ensures
        r.table_name@ == "servers"@,
        r.item.wf(),
        exists|v: String|
            is_version_token(v@) && r.item@ == item@.insert("version"@, AttrValue::S(v)),
{
    let version = fresh_version();
    stamp_version(item, version)
}

/// The write of a loaded cluster record. A failed load yields its error and
/// no put; otherwise the hosts over capacity are reported and the record is
/// written all the same.
pub fn plan_write(loaded: Result<ClusterInfo, LoadError>) -> (r: Result<WritePlan, LoadError>)
    ensures
        loaded is Err ==> r == Err::<WritePlan, LoadError>(loaded->Err_0),
        loaded is Ok ==> r is Ok,
        loaded matches Ok(c) ==> ({
            let p = r->Ok_0;
            &&& p.diagnostics@.map_values(|x: usize| x as int) == offending_hosts(c@.hosts)
            &&& p.request.table_name@ == "servers"@
            &&& p.request.item.wf()
            &&& encodes_cluster(p.request.item@.remove("version"@), c@)
            &&& p.request.item@.contains_key("version"@)
            &&& p.request.item@["version"@] matches AttrValue::S(v) && is_version_token(v@)
        }),
{
    match loaded {
        Err(e) => Err(e),
        Ok(c) => {
            let diagnostics = validate_hosts(&c.hosts);
            let ghost cv = c@;
            let item = cluster_item(c);
            let ghost base = item@;
            let request = put_request(item);
            proof {
                reveal_strlit("version");
                reveal_strlit("cluster_id");
                reveal_strlit("saturated_hosts_count");
                reveal_strlit("cluster");
                reveal_strlit("hosts");
                assert("version"@.len() == 7);
                assert("cluster_id"@.len() == 10);
                assert("saturated_hosts_count"@.len() == 21);
                assert("cluster"@.len() == 7);
                assert("version"@[0] != "cluster"@[0]);
                assert("hosts"@.len() == 5);
                assert(!base.contains_key("version"@));
                assert(request.item@.remove("version"@) =~= base);
            }
            Ok(WritePlan { diagnostics, request })
        },
    }
}

} // verus!
