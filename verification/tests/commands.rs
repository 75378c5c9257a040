use couchbase_shell::analytics::{analytics_target, Analytics, AnalyticsTarget};
use couchbase_shell::args::{
    bucket_name_from_args, cluster_identifiers_from, collection_from_args,
    convert_couchbase_row_json_to_nu_value, couchbase_error_to_shell_error, CollectionTarget,
};
use couchbase_shell::buckets_get::{
    bucket_to_tagged_dict, buckets_get, buckets_query, BucketSettingsInfo, BucketsFetch,
    BucketsGet, BucketsQuery, FetchStep,
};
use couchbase_shell::clusters::{clusters, Clusters};
use couchbase_shell::error::CliError;
use couchbase_shell::nodes::{
    capella_node_to_row, node_to_row, services_to_text, CapellaNode, NodeInfo, NodeService,
    Nodes, NodesListing, NodesStep, PoolInfo,
};
use couchbase_shell::signature::SyntaxShape;
use couchbase_shell::state::{RemoteCluster, State};
use couchbase_shell::use_bucket::{use_bucket, UseBucket};
use couchbase_shell::value::{IntValue, JsonNumber, JsonValue, NuValue};
use std::sync::{Arc, Mutex};

fn s(t: &str) -> String {
    t.to_string()
}

fn cluster(connstr: &str, user: &str, bucket: Option<&str>, capella: Option<&str>) -> RemoteCluster {
    RemoteCluster {
        connstr: s(connstr),
        username: s(user),
        active_bucket: bucket.map(s),
        active_scope: None,
        active_collection: None,
        capella_org: capella.map(s),
    }
}

fn sample_state() -> State {
    let mut st = State::new(s("local"));
    st.add_cluster(s("local"), cluster("couchbase://localhost", "Administrator", Some("travel-sample"), None));
    st.add_cluster(s("prod-1"), cluster("couchbases://prod1.example.com", "admin", None, None));
    st.add_cluster(s("prod-2"), cluster("couchbases://prod2.example.com", "admin", None, Some("org-7")));
    st
}

#[test]
fn adding_a_cluster_again_replaces_it_in_place() {
    let mut st = sample_state();
    st.add_cluster(s("prod-1"), cluster("couchbase://other", "someone", None, None));
    assert_eq!(st.clusters.len(), 3);
    assert_eq!(st.clusters[1].0, s("prod-1"));
    assert_eq!(st.clusters[1].1.username, s("someone"));
    assert_eq!(st.clusters[2].0, s("prod-2"));
    let empty = State::new(s("none"));
    assert!(empty.clusters.is_empty());
    assert_eq!(empty.active, s("none"));
}

fn row(cols: Vec<(&str, NuValue)>) -> NuValue {
    NuValue::Row(cols.into_iter().map(|(k, v)| (s(k), v)).collect())
}

#[test]
fn without_clusters_flag_the_active_cluster_is_the_default() {
    let st = sample_state();
    assert_eq!(cluster_identifiers_from(&st, None, true), Ok(vec![s("local")]));
}

#[test]
fn without_clusters_flag_and_default_every_cluster_is_listed() {
    let st = sample_state();
    assert_eq!(
        cluster_identifiers_from(&st, None, false),
        Ok(vec![s("local"), s("prod-1"), s("prod-2")])
    );
}

#[test]
fn clusters_flag_is_a_regex_over_identifiers() {
    let st = sample_state();
    assert_eq!(cluster_identifiers_from(&st, Some(s("prod")), true), Ok(vec![s("prod-1"), s("prod-2")]));
    assert_eq!(cluster_identifiers_from(&st, Some(s("^l")), false), Ok(vec![s("local")]));
    assert_eq!(cluster_identifiers_from(&st, Some(s("-2$")), false), Ok(vec![s("prod-2")]));
    assert_eq!(cluster_identifiers_from(&st, Some(s("nothing")), false), Ok(vec![]));
}

#[test]
fn a_bad_clusters_regex_is_an_error() {
    let st = sample_state();
    match cluster_identifiers_from(&st, Some(s("(")), true) {
        Err(CliError::Runtime(m)) => assert!(m.starts_with("Could not parse regex ") && m.len() > 22),
        other => panic!("unexpected {:?}", other),
    }
}

#[test]
fn bucket_name_prefers_the_flag_then_the_active_bucket() {
    let with_active = cluster("couchbase://h", "u", Some("travel-sample"), None);
    let without = cluster("couchbase://h", "u", None, None);
    assert_eq!(bucket_name_from_args(Some(s("beer")), &with_active), Ok(s("beer")));
    assert_eq!(bucket_name_from_args(None, &with_active), Ok(s("travel-sample")));
    assert_eq!(
        bucket_name_from_args(None, &without),
        Err(CliError::Runtime(s("Could not auto-select a bucket - please use --bucket instead")))
    );
}

#[test]
fn collection_uses_flags_then_active_values_then_defaults() {
    let mut c = cluster("couchbase://h", "u", Some("travel-sample"), None);
    c.active_scope = Some(s("inventory"));
    assert_eq!(
        collection_from_args(None, None, None, &c),
        Ok(CollectionTarget { bucket: s("travel-sample"), scope: s("inventory"), collection: s("") })
    );
    assert_eq!(
        collection_from_args(Some(s("b")), Some(s("sc")), Some(s("co")), &c),
        Ok(CollectionTarget { bucket: s("b"), scope: s("sc"), collection: s("co") })
    );
    let none = cluster("couchbase://h", "u", None, None);
    assert_eq!(
        collection_from_args(None, Some(s("sc")), None, &none),
        Err(CliError::Runtime(s("Could not auto-select a bucket - please use --bucket instead")))
    );
}

#[test]
fn couchbase_errors_become_runtime_errors() {
    assert_eq!(couchbase_error_to_shell_error(s("timeout")), CliError::Runtime(s("timeout")));
    assert_eq!(
        convert_couchbase_row_json_to_nu_value(Err(s("row failed"))),
        Err(CliError::Runtime(s("row failed")))
    );
    assert_eq!(
        convert_couchbase_row_json_to_nu_value(Ok(JsonValue::Number(JsonNumber::Int(4)))),
        Ok(NuValue::Int(IntValue::Small(4)))
    );
}

#[test]
fn analytics_runs_on_the_cluster_or_a_scope() {
    let with_active = cluster("couchbase://h", "u", Some("travel-sample"), None);
    let without = cluster("couchbase://h", "u", None, None);
    assert_eq!(analytics_target(Some(s("b")), None, &with_active), Ok(AnalyticsTarget::Cluster));
    assert_eq!(
        analytics_target(None, Some(s("inventory")), &with_active),
        Ok(AnalyticsTarget::Scope { bucket: s("travel-sample"), scope: s("inventory") })
    );
    assert_eq!(
        analytics_target(Some(s("b")), Some(s("x")), &without),
        Ok(AnalyticsTarget::Scope { bucket: s("b"), scope: s("x") })
    );
    assert_eq!(
        analytics_target(None, Some(s("x")), &without),
        Err(CliError::Runtime(s("Could not auto-select a bucket - please use --bucket instead")))
    );
}

#[test]
fn command_descriptions() {
    let shared = Arc::new(sample_state());
    let a = Analytics::new(shared.clone());
    assert_eq!(a.name(), "analytics");
    assert_eq!(a.usage(), "Performs an analytics query");
    let sig = a.signature();
    assert_eq!(sig.name, "analytics");
    assert_eq!(sig.required.len(), 1);
    assert_eq!(sig.required[0].name, "statement");
    assert_eq!(sig.required[0].shape, SyntaxShape::String);
    assert_eq!(sig.named.iter().map(|n| n.name.clone()).collect::<Vec<_>>(), vec![s("bucket"), s("scope")]);
    assert!(Arc::ptr_eq(a.state(), &shared));

    let b = BucketsGet::new(shared.clone());
    assert_eq!(b.name(), "buckets get");
    assert_eq!(b.usage(), "Fetches buckets through the HTTP API");
    assert_eq!(b.signature().named[1].desc, "the clusters which should be contacted");

    let c = Clusters::new(shared.clone());
    assert_eq!(c.name(), "clusters");
    assert_eq!(c.usage(), "Lists all managed clusters");
    assert_eq!(c.signature().named.len(), 1);

    let locked = Arc::new(Mutex::new(sample_state()));
    let n = Nodes::new(locked.clone());
    assert_eq!(n.name(), "nodes");
    assert_eq!(n.usage(), "Lists all nodes of the connected cluster");
    assert!(Arc::ptr_eq(n.state(), &locked));
    let u = UseBucket::new(locked.clone());
    assert_eq!(u.name(), "use bucket");
    assert_eq!(u.usage(), "Sets the active bucket based on its name");
    assert_eq!(u.signature().required[0].desc, "the name of the bucket");
}

fn settings(name: &str, kind: &str, quota: u64) -> BucketSettingsInfo {
    BucketSettingsInfo {
        name: s(name),
        bucket_type: s(kind),
        num_replicas: 1,
        ram_quota_mb: quota,
        flush_enabled: false,
        min_durability_level: s("none"),
    }
}

#[test]
fn a_bucket_row_lowercases_the_type_and_counts_bytes() {
    assert_eq!(
        bucket_to_tagged_dict(&settings("travel-sample", "Couchbase", 100), s("local")),
        row(vec![
            ("cluster", NuValue::Str(s("local"))),
            ("name", NuValue::Str(s("travel-sample"))),
            ("type", NuValue::Str(s("couchbase"))),
            ("replicas", NuValue::Int(IntValue::Small(1))),
            ("ram_quota", NuValue::Filesize(100_000_000)),
            ("flush_enabled", NuValue::Boolean(false)),
            ("min_durability_level", NuValue::Str(s("none"))),
        ])
    );
}

#[test]
fn an_empty_bucket_flag_fetches_all_buckets() {
    assert_eq!(buckets_query(None), BucketsQuery::All);
    assert_eq!(buckets_query(Some(s(""))), BucketsQuery::All);
    assert_eq!(buckets_query(Some(s("beer"))), BucketsQuery::One(s("beer")));
}

#[test]
fn a_buckets_get_run_collects_rows_cluster_by_cluster() {
    let st = sample_state();
    let (query, mut run) = buckets_get(&st, Some(s("prod")), None).unwrap();
    assert_eq!(query, BucketsQuery::All);
    assert_eq!(run.step(&st), FetchStep::Fetch(s("prod-1")));
    assert_eq!(run.record(Ok(vec![settings("a", "Ephemeral", 1), settings("b", "Couchbase", 2)])), Ok(()));
    assert_eq!(run.step(&st), FetchStep::Fetch(s("prod-2")));
    assert_eq!(run.record(Ok(vec![])), Ok(()));
    assert_eq!(run.step(&st), FetchStep::Done);
    let rows = run.into_rows();
    assert_eq!(rows.len(), 2);
    assert_eq!(rows[0], bucket_to_tagged_dict(&settings("a", "Ephemeral", 1), s("prod-1")));
}

#[test]
fn a_buckets_get_run_stops_on_unknown_clusters_and_errors() {
    let st = sample_state();
    let mut run = BucketsFetch::new(vec![s("local"), s("gone")]);
    assert_eq!(run.record(Err(CliError::Runtime(s("bucket not found")))), Err(CliError::Runtime(s("bucket not found"))));
    assert_eq!(run.step(&st), FetchStep::Fetch(s("local")));
    assert_eq!(run.record(Ok(vec![settings("x", "Couchbase", 1)])), Ok(()));
    assert_eq!(run.step(&st), FetchStep::Fail(CliError::Runtime(s("Cluster not found"))));
}

#[test]
fn clusters_lists_the_selected_clusters() {
    let st = sample_state();
    assert_eq!(
        clusters(&st, Some(s("local|prod-2"))),
        Ok(vec![
            row(vec![
                ("active", NuValue::Boolean(true)),
                ("tls", NuValue::Boolean(false)),
                ("identifier", NuValue::Str(s("local"))),
                ("username", NuValue::Str(s("Administrator"))),
            ]),
            row(vec![
                ("active", NuValue::Boolean(false)),
                ("tls", NuValue::Boolean(true)),
                ("identifier", NuValue::Str(s("prod-2"))),
                ("username", NuValue::Str(s("admin"))),
            ]),
        ])
    );
    assert_eq!(clusters(&st, None).unwrap().len(), 3);
}

#[test]
fn clusters_without_flag_lists_every_cluster_once_with_one_active() {
    let st = sample_state();
    let rows = clusters(&st, None).unwrap();
    let mut identifiers: Vec<String> = Vec::new();
    let mut active = 0;
    for r in &rows {
        match r {
            NuValue::Row(cols) => {
                if cols[0].1 == NuValue::Boolean(true) {
                    active += 1;
                }
                match &cols[2].1 {
                    NuValue::Str(id) => identifiers.push(id.clone()),
                    other => panic!("identifier column holds {:?}", other),
                }
            }
            other => panic!("not a row: {:?}", other),
        }
    }
    assert_eq!(identifiers, vec![s("local"), s("prod-1"), s("prod-2")]);
    assert_eq!(active, 1);
}

#[test]
fn use_bucket_sets_the_active_clusters_bucket() {
    let mut st = sample_state();
    assert_eq!(
        use_bucket(&mut st, s("beer-sample")),
        Ok(vec![row(vec![("bucket", NuValue::Str(s("beer-sample")))])])
    );
    assert_eq!(st.clusters[0].1.active_bucket, Some(s("beer-sample")));
    assert_eq!(st.clusters[1].1.active_bucket, None);
}

#[test]
fn use_bucket_needs_an_active_cluster() {
    let mut st = sample_state();
    st.active = s("elsewhere");
    let before = sample_state();
    assert_eq!(
        use_bucket(&mut st, s("beer-sample")),
        Err(CliError::Unexpected(s("An active cluster must be set")))
    );
    assert_eq!(st.clusters, before.clusters);
}

#[test]
fn services_are_joined_by_commas() {
    assert_eq!(services_to_text(&vec![]), "");
    assert_eq!(services_to_text(&vec![NodeService::KeyValue]), "kv");
    assert_eq!(
        services_to_text(&vec![NodeService::KeyValue, NodeService::Query, NodeService::Search, NodeService::Analytics]),
        "kv,query,search,analytics"
    );
    assert_eq!(NodeService::Indexing.display_name(), "indexing");
    assert_eq!(NodeService::Eventing.display_name(), "eventing");
    assert_eq!(NodeService::Backup.display_name(), "backup");
}

fn node(host: &str) -> NodeInfo {
    NodeInfo {
        hostname: s(host),
        status: s("healthy"),
        memory_total: 8,
        memory_free: u64::MAX,
        services: vec![NodeService::KeyValue, NodeService::Indexing],
        version: s("7.0.0"),
        os: s("linux"),
    }
}

#[test]
fn node_rows_show_what_the_cluster_reports() {
    assert_eq!(
        node_to_row(&s("local"), &node("10.0.0.1:8091")),
        row(vec![
            ("cluster", NuValue::Str(s("local"))),
            ("hostname", NuValue::Str(s("10.0.0.1:8091"))),
            ("status", NuValue::Str(s("healthy"))),
            ("services", NuValue::Str(s("kv,indexing"))),
            ("version", NuValue::Str(s("7.0.0"))),
            ("os", NuValue::Str(s("linux"))),
            ("memory_total", NuValue::Int(IntValue::Small(8))),
            ("memory_free", NuValue::Int(IntValue::Small(-1))),
            ("capella", NuValue::Boolean(false)),
        ])
    );
    let cn = CapellaNode { name: s("node1"), status: s("up"), services: vec![NodeService::Query] };
    assert_eq!(
        capella_node_to_row(&s("prod-2"), &cn),
        row(vec![
            ("cluster", NuValue::Str(s("prod-2"))),
            ("hostname", NuValue::Str(s("node1"))),
            ("status", NuValue::Str(s("up"))),
            ("services", NuValue::Str(s("query"))),
            ("version", NuValue::Str(s(""))),
            ("os", NuValue::Str(s(""))),
            ("memory_total", NuValue::Str(s(""))),
            ("memory_free", NuValue::Str(s(""))),
            ("capella", NuValue::Boolean(true)),
        ])
    );
}

#[test]
fn a_nodes_run_asks_each_cluster_the_right_way() {
    let st = sample_state();
    let mut run = NodesListing::start(&st, Some(s("."))).unwrap();
    assert_eq!(run.step(&st), NodesStep::FetchPool(s("local")));
    let pool = PoolInfo { name: s("default"), nodes: vec![node("a"), node("b")] };
    assert_eq!(run.record_pool(200, s("{}"), Ok(pool)), Ok(()));
    assert_eq!(run.step(&st), NodesStep::FetchPool(s("prod-1")));
    assert_eq!(
        run.record_pool(500, s("oops"), Err(s("bad json"))),
        Err(CliError::Labeled(s("Request failed oops"), s("")))
    );
    assert_eq!(
        run.record_pool(200, s("{"), Err(s("EOF"))),
        Err(CliError::Labeled(s("Failed to decode response body EOF"), s("Failed to decode response body EOF")))
    );
    assert_eq!(run.record_pool(200, s("{}"), Ok(PoolInfo { name: s("default"), nodes: vec![] })), Ok(()));
    assert_eq!(run.step(&st), NodesStep::FetchCapella { identifier: s("prod-2"), org: s("org-7") });
    assert_eq!(
        run.record_capella(404, s("missing"), Ok(vec![])),
        Err(CliError::Labeled(s("missing"), s("missing")))
    );
    assert_eq!(
        run.record_capella(200, s("x"), Err(s("bad"))),
        Err(CliError::Labeled(s("bad"), s("bad")))
    );
    let cn = CapellaNode { name: s("n"), status: s("up"), services: vec![] };
    assert_eq!(run.record_capella(200, s("{}"), Ok(vec![cn])), Ok(()));
    assert_eq!(run.step(&st), NodesStep::Done);
    let rows = run.into_rows();
    assert_eq!(rows.len(), 3);
    assert_eq!(rows[1], node_to_row(&s("local"), &node("b")));
}

#[test]
fn a_nodes_run_on_an_unknown_cluster_fails() {
    let mut st = sample_state();
    st.active = s("gone");
    let run = NodesListing::start(&st, None).unwrap();
    assert_eq!(run.step(&st), NodesStep::Fail(CliError::Labeled(s("Cluster not found"), s("Cluster not found"))));
}
