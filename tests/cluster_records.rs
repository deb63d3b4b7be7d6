use cluster_hosts::{
    cluster_item, host_item, numeral_greater, plan_write, put_request, stamp_version, table_name,
    table_spec, validate_hosts, AttrValue, ClusterInfo, Host, Item, KeyRole, LoadError, ScalarType,
};

fn s(x: &str) -> String {
    x.to_string()
}

fn host(id: &str, capacity: &str, used: &str) -> Host {
    Host::new(s(id), s(capacity), s(used))
}

fn cluster(hosts: Vec<Host>) -> ClusterInfo {
    ClusterInfo::new(s("1"), s("0"), s("east"), hosts)
}

fn attr<'a>(item: &'a Item, key: &str) -> Option<&'a AttrValue> {
    item.get(&s(key))
}

#[test]
fn east_cluster_maps_to_tagged_attributes() {
    let c = cluster(vec![host("h1", "10", "5")]);
    assert!(validate_hosts(&c.hosts).is_empty());
    let item = cluster_item(c);
    assert_eq!(item.len(), 4);
    assert_eq!(attr(&item, "cluster_id"), Some(&AttrValue::N(s("1"))));
    assert_eq!(attr(&item, "saturated_hosts_count"), Some(&AttrValue::N(s("0"))));
    assert_eq!(attr(&item, "cluster"), Some(&AttrValue::S(s("east"))));
    let hosts = match attr(&item, "hosts") {
        Some(AttrValue::L(v)) => v,
        other => panic!("hosts is not a list: {:?}", other),
    };
    assert_eq!(hosts.len(), 1);
    let h = match &hosts[0] {
        AttrValue::M(m) => m,
        other => panic!("host is not a map: {:?}", other),
    };
    assert_eq!(h.len(), 3);
    assert_eq!(attr(h, "identifier"), Some(&AttrValue::S(s("h1"))));
    assert_eq!(attr(h, "capacity"), Some(&AttrValue::N(s("10"))));
    assert_eq!(attr(h, "used"), Some(&AttrValue::N(s("5"))));
}

#[test]
fn east_cluster_put_targets_servers_with_version() {
    let item = cluster_item(cluster(vec![host("h1", "10", "5")]));
    let req = put_request(item);
    assert_eq!(req.table_name, "servers");
    assert_eq!(req.item.len(), 5);
    assert_eq!(attr(&req.item, "cluster_id"), Some(&AttrValue::N(s("1"))));
    match attr(&req.item, "version") {
        Some(AttrValue::S(v)) => {
            assert_eq!(v.len(), 36);
            assert_eq!(&v[14..15], "4");
            assert_eq!(v.matches('-').count(), 4);
        }
        other => panic!("version is not a string: {:?}", other),
    }
}

#[test]
fn host_item_tags_fields() {
    let item = host_item(host("a", "7", "3"));
    assert_eq!(item.len(), 3);
    assert_eq!(attr(&item, "identifier"), Some(&AttrValue::S(s("a"))));
    assert_eq!(attr(&item, "capacity"), Some(&AttrValue::N(s("7"))));
    assert_eq!(attr(&item, "used"), Some(&AttrValue::N(s("3"))));
    assert_eq!(attr(&item, "version"), None);
}

#[test]
fn over_capacity_host_is_reported_and_written() {
    let c = cluster(vec![host("h1", "10", "20")]);
    let plan = plan_write(Ok(c)).unwrap();
    assert_eq!(plan.diagnostics, vec![0]);
    assert_eq!(plan.request.table_name, "servers");
    assert_eq!(attr(&plan.request.item, "cluster_id"), Some(&AttrValue::N(s("1"))));
}

#[test]
fn only_offending_hosts_are_reported_in_order() {
    let hosts = vec![
        host("a", "10", "20"),
        host("b", "10", "10"),
        host("c", "5", "6"),
        host("d", "100", "99"),
    ];
    assert_eq!(validate_hosts(&hosts), vec![0, 2]);
    assert_eq!(hosts[0].used, "20");
}

#[test]
fn numeric_not_lexicographic_comparison() {
    // "9" > "10" as text, but 9 <= 10 as numbers.
    assert!(validate_hosts(&vec![host("a", "10", "9")]).is_empty());
    // "10" < "9" as text, but 10 > 9 as numbers.
    assert_eq!(validate_hosts(&vec![host("a", "9", "10")]), vec![0]);
    assert!(numeral_greater("010", "9"));
    assert!(!numeral_greater("0009", "10"));
    assert!(!numeral_greater("10", "10"));
    assert!(numeral_greater("100000000000000000000000000001", "100000000000000000000000000000"));
}

#[test]
fn decimal_figures_are_compared_by_value() {
    assert_eq!(validate_hosts(&vec![host("a", "1.5", "2")]), vec![0]);
    assert!(validate_hosts(&vec![host("a", "2", "1.5")]).is_empty());
    assert!(validate_hosts(&vec![host("a", "10.50", "10.5")]).is_empty());
    assert_eq!(validate_hosts(&vec![host("a", "10.5", "10.51")]), vec![0]);
    assert!(numeral_greater("2", "1.5"));
    assert!(numeral_greater("0.1", "0.09"));
    assert!(!numeral_greater("1.0", "1"));
    assert!(!numeral_greater("1", "1.000"));
}

#[test]
fn signed_figures_are_compared_by_value() {
    assert!(!numeral_greater("-5", "1"));
    assert!(numeral_greater("1", "-5"));
    assert!(numeral_greater("-1.5", "-2"));
    assert!(!numeral_greater("-2", "-1.5"));
    assert!(!numeral_greater("-0", "0"));
    assert!(!numeral_greater("0", "-0.0"));
    assert!(numeral_greater("+3", "2.99"));
    assert_eq!(validate_hosts(&vec![host("a", "-1", "0")]), vec![0]);
}

#[test]
fn non_numeral_figures_are_not_reported() {
    assert!(validate_hosts(&vec![host("a", "ten", "20")]).is_empty());
    assert!(validate_hosts(&vec![host("a", "10", "")]).is_empty());
    assert!(!numeral_greater("2.", "1"));
    assert!(!numeral_greater(".5", "0"));
    assert!(!numeral_greater("1e3", "1"));
    assert!(!numeral_greater("5", "-"));
    assert!(!numeral_greater("1.2.3", "1"));
}

#[test]
fn empty_hosts_give_empty_list() {
    let item = cluster_item(cluster(Vec::new()));
    assert_eq!(attr(&item, "hosts"), Some(&AttrValue::L(Vec::new())));
    assert!(validate_hosts(&Vec::new()).is_empty());
}

#[test]
fn hosts_keep_their_order() {
    let item = cluster_item(cluster(vec![host("x", "1", "0"), host("y", "2", "1"), host("z", "3", "2")]));
    let hosts = match attr(&item, "hosts") {
        Some(AttrValue::L(v)) => v,
        other => panic!("hosts is not a list: {:?}", other),
    };
    let ids: Vec<&AttrValue> = hosts
        .iter()
        .map(|h| match h {
            AttrValue::M(m) => attr(m, "identifier").unwrap(),
            other => panic!("host is not a map: {:?}", other),
        })
        .collect();
    assert_eq!(ids, vec![&AttrValue::S(s("x")), &AttrValue::S(s("y")), &AttrValue::S(s("z"))]);
}

#[test]
fn repeated_puts_get_different_versions() {
    let a = put_request(cluster_item(cluster(vec![host("h1", "10", "5")])));
    let b = put_request(cluster_item(cluster(vec![host("h1", "10", "5")])));
    let va = attr(&a.item, "version").unwrap();
    let vb = attr(&b.item, "version").unwrap();
    assert_ne!(va, vb);
}

#[test]
fn stamping_replaces_an_earlier_version() {
    let item = cluster_item(cluster(Vec::new()));
    let first = stamp_version(item, s("v1"));
    assert_eq!(attr(&first.item, "version"), Some(&AttrValue::S(s("v1"))));
    let second = stamp_version(first.item, s("v2"));
    assert_eq!(second.item.len(), 5);
    assert_eq!(attr(&second.item, "version"), Some(&AttrValue::S(s("v2"))));
}

#[test]
fn item_insert_overwrites() {
    let mut item = Item::new();
    item.insert(s("k"), AttrValue::N(s("1")));
    item.insert(s("j"), AttrValue::S(s("x")));
    item.insert(s("k"), AttrValue::N(s("2")));
    assert_eq!(item.len(), 2);
    assert_eq!(item.entries()[0].0, "k");
    assert_eq!(attr(&item, "k"), Some(&AttrValue::N(s("2"))));
}

#[test]
fn missing_file_aborts_before_any_put() {
    let r = plan_write(Err(LoadError::Io(s("example.json: not found"))));
    match r {
        Err(LoadError::Io(m)) => assert_eq!(m, "example.json: not found"),
        _ => panic!("expected the I/O error"),
    }
}

#[test]
fn incomplete_record_aborts_before_any_put() {
    let r = plan_write(Err(LoadError::Parse(s("missing field `saturated_hosts_count`"))));
    assert!(matches!(r, Err(LoadError::Parse(_))));
}

#[test]
fn table_schema_is_fixed() {
    let t = table_spec();
    assert_eq!(t.table_name, "servers");
    assert_eq!(t.key_name, "cluster_id");
    assert_eq!(t.key_type, ScalarType::N);
    assert_eq!(t.key_role, KeyRole::Hash);
    assert_eq!(t.read_capacity_units, 10);
    assert_eq!(t.write_capacity_units, 5);
    assert_eq!(table_name(), "servers");
}
