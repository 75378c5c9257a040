//! The `nodes` command: lists the nodes of each cluster addressed, asking a
//! self-managed cluster for its pool and Capella for a hosted cluster's health.

use vstd::prelude::*;
use std::sync::{Arc, Mutex};
use crate::error::{CliError, ErrorView};
use crate::state::{State, texts_view, identifiers_view, opt_view};
use crate::signature::{CommandSignature, SignatureView, SyntaxShape};
use crate::value::{IntValue, IntView, NuValue, NuView};
use crate::row::{column, keys_distinct, lemma_column_of_distinct, lemma_nu_entries_view};
use crate::text::join_texts;
use crate::args::{cluster_identifiers_from, cluster_identifiers_spec};

verus! {

/// The `nodes` command.
pub struct Nodes {
    state: Arc<Mutex<State>>,
}

/// The arguments `nodes` declares.
pub open spec fn nodes_signature() -> SignatureView {
    SignatureView {
        name: "nodes"@,
        required: Seq::empty(),
        named: seq![("clusters"@, SyntaxShape::String, "the clusters which should be contacted"@, None)],
    }
}

impl Nodes {
    /// The state the command reads.
    pub closed spec fn shared_state(&self) -> Arc<Mutex<State>> {
        self.state
    }

    /// The command, reading `state`.
    pub fn new(state: Arc<Mutex<State>>) -> (r: Self)
        ensures
            r.shared_state() == state,
    {
        Self { state }
    }

    /// The state the command reads.
    pub fn state(&self) -> (r: &Arc<Mutex<State>>)
        ensures
            *r == self.shared_state(),
    {
        &self.state
    }

    pub fn name(&self) -> (r: &'static str)
        ensures
            r@ == "nodes"@,
    {
        "nodes"
    }

    pub fn signature(&self) -> (r: CommandSignature)
        ensures
            r@ == nodes_signature(),
    {
        let r = CommandSignature::build("nodes").named(
            "clusters",
            SyntaxShape::String,
            "the clusters which should be contacted",
            None,
        );
        assert(r@.named =~= nodes_signature().named);
        r
    }

    pub fn usage(&self) -> (r: &'static str)
        ensures
            r@ == "Lists all nodes of the connected cluster"@,
    {
        "Lists all nodes of the connected cluster"
    }
}

/// A service a node runs.
#[derive(Clone, Copy, Debug, PartialEq, Eq, Structural)]
pub enum NodeService {
    Analytics,
    Eventing,
    Search,
    Query,
    Indexing,
    KeyValue,
    Backup,
}

/// The name the shell shows for a service.
pub open spec fn service_name(s: NodeService) -> Seq<char> {
    match s {
        NodeService::Analytics => "analytics"@,
        NodeService::Eventing => "eventing"@,
        NodeService::Search => "search"@,
        NodeService::Query => "query"@,
        NodeService::Indexing => "indexing"@,
        NodeService::KeyValue => "kv"@,
        NodeService::Backup => "backup"@,
    }
}

impl NodeService {
    /// The name the shell shows for this service.
    pub fn display_name(&self) -> (r: &'static str)
        ensures
            r@ == service_name(*self),
    {
        match *self {
            NodeService::Analytics => "analytics",
            NodeService::Eventing => "eventing",
            NodeService::Search => "search",
            NodeService::Query => "query",
            NodeService::Indexing => "indexing",
            NodeService::KeyValue => "kv",
            NodeService::Backup => "backup",
        }
    }
}

/// The services of a node as the shell shows them: their names, joined by commas.
pub open spec fn services_text(s: Seq<NodeService>) -> Seq<char> {
    join_texts(s.map_values(|x: NodeService| service_name(x)), ","@)
}

/// The names of the services, joined by commas.
pub fn services_to_text(services: &Vec<NodeService>) -> (r: String)
    ensures
        r@ == services_text(services@),
{
    let ghost names = services@.map_values(|x: NodeService| service_name(x));
    let mut out = String::new();
    let mut i: usize = 0;
    while i < services.len()
        invariant
            i <= services@.len(),
            names == services@.map_values(|x: NodeService| service_name(x)),
            out@ == join_texts(names.take(i as int), ","@),
        decreases services@.len() - i,
    {
        assert(names.take(i + 1).drop_last() =~= names.take(i as int));
        if i == 0 {
            out = String::from_str(services[i].display_name());
            assert(names.take(1) =~= seq![names[0]]);
        } else {
            out = out.concat(",").concat(services[i].display_name());
        }
        i = i + 1;
    }
    assert(names.take(services@.len() as int) =~= names);
    out
}

/// What a self-managed cluster reports about one of its nodes.
#[derive(Debug, PartialEq)]
pub struct NodeInfo {
    pub hostname: String,
    pub status: String,
    pub memory_total: u64,
    pub memory_free: u64,
    pub services: Vec<NodeService>,
    pub version: String,
    pub os: String,
}

/// What a self-managed cluster reports about its pool of nodes.
#[derive(Debug, PartialEq)]
pub struct PoolInfo {
    pub name: String,
    pub nodes: Vec<NodeInfo>,
}

/// What Capella reports about one node of a hosted cluster.
#[derive(Debug, PartialEq)]
pub struct CapellaNode {
    pub name: String,
    pub status: String,
    pub services: Vec<NodeService>,
}

/// The row for a node of a self-managed cluster.
pub open spec fn node_row(cluster: Seq<char>, n: NodeInfo) -> NuView {
    NuView::Row(
        seq![
            ("cluster"@, NuView::Str(cluster)),
            ("hostname"@, NuView::Str(n.hostname@)),
            ("status"@, NuView::Str(n.status@)),
            ("services"@, NuView::Str(services_text(n.services@))),
            ("version"@, NuView::Str(n.version@)),
            ("os"@, NuView::Str(n.os@)),
            ("memory_total"@, NuView::Int(IntView::Small(n.memory_total as i64))),
            ("memory_free"@, NuView::Int(IntView::Small(n.memory_free as i64))),
            ("capella"@, NuView::Boolean(false)),
        ],
    )
}

/// The row for a node of a Capella cluster: what Capella does not report is empty.
pub open spec fn capella_node_row(cluster: Seq<char>, n: CapellaNode) -> NuView {
    NuView::Row(
        seq![
            ("cluster"@, NuView::Str(cluster)),
            ("hostname"@, NuView::Str(n.name@)),
            ("status"@, NuView::Str(n.status@)),
            ("services"@, NuView::Str(services_text(n.services@))),
            ("version"@, NuView::Str(Seq::empty())),
            ("os"@, NuView::Str(Seq::empty())),
            ("memory_total"@, NuView::Str(Seq::empty())),
            ("memory_free"@, NuView::Str(Seq::empty())),
            ("capella"@, NuView::Boolean(true)),
        ],
    )
}

/// The names the shell shows for the services of a node.
pub proof fn service_names()
    ensures
        service_name(NodeService::Analytics) == "analytics"@,
        service_name(NodeService::Eventing) == "eventing"@,
        service_name(NodeService::Search) == "search"@,
        service_name(NodeService::Query) == "query"@,
        service_name(NodeService::Indexing) == "indexing"@,
        service_name(NodeService::KeyValue) == "kv"@,
        service_name(NodeService::Backup) == "backup"@,
{
}

/// The services of a node show as their names in order, separated by
/// commas: none as the empty text, one as its name, and one more service
/// as a comma and its name after the others.
pub proof fn services_show_comma_separated(s: Seq<NodeService>, x: NodeService)
    ensures
        services_text(Seq::empty()) == Seq::<char>::empty(),
        services_text(seq![x]) == service_name(x),
        s.len() > 0 ==> services_text(s.push(x)) == services_text(s) + ","@ + service_name(x),
{
    let f = |y: NodeService| service_name(y);
    assert(Seq::<NodeService>::empty().map_values(f) =~= Seq::<Seq<char>>::empty());
    assert(seq![x].map_values(f) =~= seq![service_name(x)]);
    crate::text::join_puts_separator_between(s.map_values(f), ","@, service_name(x));
    assert(s.push(x).map_values(f) =~= s.map_values(f).push(service_name(x)));
}

/// There is one row per node, in the nodes' order, each the row for its node.
pub proof fn one_row_per_node(cluster: Seq<char>, ns: Seq<NodeInfo>, cs: Seq<CapellaNode>)
    ensures
        node_rows(cluster, ns).len() == ns.len(),
        forall|i: int| 0 <= i < ns.len() ==> #[trigger] node_rows(cluster, ns)[i] == node_row(cluster, ns[i]),
        capella_node_rows(cluster, cs).len() == cs.len(),
        forall|i: int| 0 <= i < cs.len() ==> #[trigger] capella_node_rows(cluster, cs)[i] == capella_node_row(cluster, cs[i]),
{
}

/// The row for a node of a self-managed cluster names each column once and
/// shows what the cluster reported of the node: its host name, its status,
/// its services, version and operating system, its memory, and that it is
/// not hosted on Capella.
pub proof fn node_row_shows_the_node(cluster: Seq<char>, n: NodeInfo)
    ensures
        node_row(cluster, n) matches NuView::Row(c) && keys_distinct(c) && c.len() == 9,
        column(node_row(cluster, n), "cluster"@) == Some(NuView::Str(cluster)),
        column(node_row(cluster, n), "hostname"@) == Some(NuView::Str(n.hostname@)),
        column(node_row(cluster, n), "status"@) == Some(NuView::Str(n.status@)),
        column(node_row(cluster, n), "services"@) == Some(NuView::Str(services_text(n.services@))),
        column(node_row(cluster, n), "version"@) == Some(NuView::Str(n.version@)),
        column(node_row(cluster, n), "os"@) == Some(NuView::Str(n.os@)),
        column(node_row(cluster, n), "memory_total"@) == Some(NuView::Int(IntView::Small(n.memory_total as i64))),
        column(node_row(cluster, n), "memory_free"@) == Some(NuView::Int(IntView::Small(n.memory_free as i64))),
        column(node_row(cluster, n), "capella"@) == Some(NuView::Boolean(false)),
{
    reveal_strlit("cluster");
    reveal_strlit("hostname");
    reveal_strlit("status");
    reveal_strlit("services");
    reveal_strlit("version");
    reveal_strlit("os");
    reveal_strlit("memory_total");
    reveal_strlit("memory_free");
    reveal_strlit("capella");
    let c = node_row(cluster, n)->Row_0;
    assert(c[0].0 == "cluster"@);
    assert(c[1].0 == "hostname"@);
    assert(c[2].0 == "status"@);
    assert(c[3].0 == "services"@);
    assert(c[4].0 == "version"@);
    assert(c[5].0 == "os"@);
    assert(c[6].0 == "memory_total"@);
    assert(c[7].0 == "memory_free"@);
    assert(c[8].0 == "capella"@);
    assert forall|i: int, j: int| 0 <= i < j < 9 implies c[i].0 != c[j].0 by {
        if i == 0 && j == 1 {
            assert(c[0].0.len() != c[1].0.len());
        } else if i == 0 && j == 2 {
            assert(c[0].0.len() != c[2].0.len());
        } else if i == 0 && j == 3 {
            assert(c[0].0.len() != c[3].0.len());
        } else if i == 0 && j == 4 {
            assert(c[0].0[0] != c[4].0[0]);
        } else if i == 0 && j == 5 {
            assert(c[0].0.len() != c[5].0.len());
        } else if i == 0 && j == 6 {
            assert(c[0].0.len() != c[6].0.len());
        } else if i == 0 && j == 7 {
            assert(c[0].0.len() != c[7].0.len());
        } else if i == 0 && j == 8 {
            assert(c[0].0[1] != c[8].0[1]);
        } else if i == 1 && j == 2 {
            assert(c[1].0.len() != c[2].0.len());
        } else if i == 1 && j == 3 {
            assert(c[1].0[0] != c[3].0[0]);
        } else if i == 1 && j == 4 {
            assert(c[1].0.len() != c[4].0.len());
        } else if i == 1 && j == 5 {
            assert(c[1].0.len() != c[5].0.len());
        } else if i == 1 && j == 6 {
            assert(c[1].0.len() != c[6].0.len());
        } else if i == 1 && j == 7 {
            assert(c[1].0.len() != c[7].0.len());
        } else if i == 1 && j == 8 {
            assert(c[1].0.len() != c[8].0.len());
        } else if i == 2 && j == 3 {
            assert(c[2].0.len() != c[3].0.len());
        } else if i == 2 && j == 4 {
            assert(c[2].0.len() != c[4].0.len());
        } else if i == 2 && j == 5 {
            assert(c[2].0.len() != c[5].0.len());
        } else if i == 2 && j == 6 {
            assert(c[2].0.len() != c[6].0.len());
        } else if i == 2 && j == 7 {
            assert(c[2].0.len() != c[7].0.len());
        } else if i == 2 && j == 8 {
            assert(c[2].0.len() != c[8].0.len());
        } else if i == 3 && j == 4 {
            assert(c[3].0.len() != c[4].0.len());
        } else if i == 3 && j == 5 {
            assert(c[3].0.len() != c[5].0.len());
        } else if i == 3 && j == 6 {
            assert(c[3].0.len() != c[6].0.len());
        } else if i == 3 && j == 7 {
            assert(c[3].0.len() != c[7].0.len());
        } else if i == 3 && j == 8 {
            assert(c[3].0.len() != c[8].0.len());
        } else if i == 4 && j == 5 {
            assert(c[4].0.len() != c[5].0.len());
        } else if i == 4 && j == 6 {
            assert(c[4].0.len() != c[6].0.len());
        } else if i == 4 && j == 7 {
            assert(c[4].0.len() != c[7].0.len());
        } else if i == 4 && j == 8 {
            assert(c[4].0[0] != c[8].0[0]);
        } else if i == 5 && j == 6 {
            assert(c[5].0.len() != c[6].0.len());
        } else if i == 5 && j == 7 {
            assert(c[5].0.len() != c[7].0.len());
        } else if i == 5 && j == 8 {
            assert(c[5].0.len() != c[8].0.len());
        } else if i == 6 && j == 7 {
            assert(c[6].0.len() != c[7].0.len());
        } else if i == 6 && j == 8 {
            assert(c[6].0.len() != c[8].0.len());
        } else if i == 7 && j == 8 {
            assert(c[7].0.len() != c[8].0.len());
        }
    }
    assert(keys_distinct(c));
    lemma_column_of_distinct(c, 0);
    lemma_column_of_distinct(c, 1);
    lemma_column_of_distinct(c, 2);
    lemma_column_of_distinct(c, 3);
    lemma_column_of_distinct(c, 4);
    lemma_column_of_distinct(c, 5);
    lemma_column_of_distinct(c, 6);
    lemma_column_of_distinct(c, 7);
    lemma_column_of_distinct(c, 8);
}

/// The row for a node of a Capella cluster names each column once and shows
/// what Capella reported of the node: its name as host name, its status and
/// its services; the version, operating system and memory, which Capella
/// does not report, are empty, and the node is marked as hosted on Capella.
pub proof fn capella_node_row_shows_the_node(cluster: Seq<char>, n: CapellaNode)
    ensures
        capella_node_row(cluster, n) matches NuView::Row(c) && keys_distinct(c) && c.len() == 9,
        column(capella_node_row(cluster, n), "cluster"@) == Some(NuView::Str(cluster)),
        column(capella_node_row(cluster, n), "hostname"@) == Some(NuView::Str(n.name@)),
        column(capella_node_row(cluster, n), "status"@) == Some(NuView::Str(n.status@)),
        column(capella_node_row(cluster, n), "services"@) == Some(NuView::Str(services_text(n.services@))),
        column(capella_node_row(cluster, n), "version"@) == Some(NuView::Str(Seq::empty())),
        column(capella_node_row(cluster, n), "os"@) == Some(NuView::Str(Seq::empty())),
        column(capella_node_row(cluster, n), "memory_total"@) == Some(NuView::Str(Seq::empty())),
        column(capella_node_row(cluster, n), "memory_free"@) == Some(NuView::Str(Seq::empty())),
        column(capella_node_row(cluster, n), "capella"@) == Some(NuView::Boolean(true)),
{
    reveal_strlit("cluster");
    reveal_strlit("hostname");
    reveal_strlit("status");
    reveal_strlit("services");
    reveal_strlit("version");
    reveal_strlit("os");
    reveal_strlit("memory_total");
    reveal_strlit("memory_free");
    reveal_strlit("capella");
    let c = capella_node_row(cluster, n)->Row_0;
    assert(c[0].0 == "cluster"@);
    assert(c[1].0 == "hostname"@);
    assert(c[2].0 == "status"@);
    assert(c[3].0 == "services"@);
    assert(c[4].0 == "version"@);
    assert(c[5].0 == "os"@);
    assert(c[6].0 == "memory_total"@);
    assert(c[7].0 == "memory_free"@);
    assert(c[8].0 == "capella"@);
    assert forall|i: int, j: int| 0 <= i < j < 9 implies c[i].0 != c[j].0 by {
        if i == 0 && j == 1 {
            assert(c[0].0.len() != c[1].0.len());
        } else if i == 0 && j == 2 {
            assert(c[0].0.len() != c[2].0.len());
        } else if i == 0 && j == 3 {
            assert(c[0].0.len() != c[3].0.len());
        } else if i == 0 && j == 4 {
            assert(c[0].0[0] != c[4].0[0]);
        } else if i == 0 && j == 5 {
            assert(c[0].0.len() != c[5].0.len());
        } else if i == 0 && j == 6 {
            assert(c[0].0.len() != c[6].0.len());
        } else if i == 0 && j == 7 {
            assert(c[0].0.len() != c[7].0.len());
        } else if i == 0 && j == 8 {
            assert(c[0].0[1] != c[8].0[1]);
        } else if i == 1 && j == 2 {
            assert(c[1].0.len() != c[2].0.len());
        } else if i == 1 && j == 3 {
            assert(c[1].0[0] != c[3].0[0]);
        } else if i == 1 && j == 4 {
            assert(c[1].0.len() != c[4].0.len());
        } else if i == 1 && j == 5 {
            assert(c[1].0.len() != c[5].0.len());
        } else if i == 1 && j == 6 {
            assert(c[1].0.len() != c[6].0.len());
        } else if i == 1 && j == 7 {
            assert(c[1].0.len() != c[7].0.len());
        } else if i == 1 && j == 8 {
            assert(c[1].0.len() != c[8].0.len());
        } else if i == 2 && j == 3 {
            assert(c[2].0.len() != c[3].0.len());
        } else if i == 2 && j == 4 {
            assert(c[2].0.len() != c[4].0.len());
        } else if i == 2 && j == 5 {
            assert(c[2].0.len() != c[5].0.len());
        } else if i == 2 && j == 6 {
            assert(c[2].0.len() != c[6].0.len());
        } else if i == 2 && j == 7 {
            assert(c[2].0.len() != c[7].0.len());
        } else if i == 2 && j == 8 {
            assert(c[2].0.len() != c[8].0.len());
        } else if i == 3 && j == 4 {
            assert(c[3].0.len() != c[4].0.len());
        } else if i == 3 && j == 5 {
            assert(c[3].0.len() != c[5].0.len());
        } else if i == 3 && j == 6 {
            assert(c[3].0.len() != c[6].0.len());
        } else if i == 3 && j == 7 {
            assert(c[3].0.len() != c[7].0.len());
        } else if i == 3 && j == 8 {
            assert(c[3].0.len() != c[8].0.len());
        } else if i == 4 && j == 5 {
            assert(c[4].0.len() != c[5].0.len());
        } else if i == 4 && j == 6 {
            assert(c[4].0.len() != c[6].0.len());
        } else if i == 4 && j == 7 {
            assert(c[4].0.len() != c[7].0.len());
        } else if i == 4 && j == 8 {
            assert(c[4].0[0] != c[8].0[0]);
        } else if i == 5 && j == 6 {
            assert(c[5].0.len() != c[6].0.len());
        } else if i == 5 && j == 7 {
            assert(c[5].0.len() != c[7].0.len());
        } else if i == 5 && j == 8 {
            assert(c[5].0.len() != c[8].0.len());
        } else if i == 6 && j == 7 {
            assert(c[6].0.len() != c[7].0.len());
        } else if i == 6 && j == 8 {
            assert(c[6].0.len() != c[8].0.len());
        } else if i == 7 && j == 8 {
            assert(c[7].0.len() != c[8].0.len());
        }
    }
    assert(keys_distinct(c));
    lemma_column_of_distinct(c, 0);
    lemma_column_of_distinct(c, 1);
    lemma_column_of_distinct(c, 2);
    lemma_column_of_distinct(c, 3);
    lemma_column_of_distinct(c, 4);
    lemma_column_of_distinct(c, 5);
    lemma_column_of_distinct(c, 6);
    lemma_column_of_distinct(c, 7);
    lemma_column_of_distinct(c, 8);
}

/// The row for a node of a self-managed cluster.
pub fn node_to_row(cluster: &String, n: &NodeInfo) -> (r: NuValue)
    ensures
        r@ == node_row(cluster@, *n),
{
    let mut c: Vec<(String, NuValue)> = Vec::new();
    c.push((String::from_str("cluster"), NuValue::Str(cluster.clone())));
    c.push((String::from_str("hostname"), NuValue::Str(n.hostname.clone())));
    c.push((String::from_str("status"), NuValue::Str(n.status.clone())));
    c.push((String::from_str("services"), NuValue::Str(services_to_text(&n.services))));
    c.push((String::from_str("version"), NuValue::Str(n.version.clone())));
    c.push((String::from_str("os"), NuValue::Str(n.os.clone())));
    c.push((String::from_str("memory_total"), NuValue::Int(IntValue::Small(n.memory_total as i64))));
    c.push((String::from_str("memory_free"), NuValue::Int(IntValue::Small(n.memory_free as i64))));
    c.push((String::from_str("capella"), NuValue::Boolean(false)));
    proof {
        lemma_nu_entries_view(c@);
    }
    assert(crate::row::entries_of(c@) =~= node_row(cluster@, *n)->Row_0);
    NuValue::Row(c)
}

/// The row for a node of a Capella cluster.
pub fn capella_node_to_row(cluster: &String, n: &CapellaNode) -> (r: NuValue)
    ensures
        r@ == capella_node_row(cluster@, *n),
{
    let mut c: Vec<(String, NuValue)> = Vec::new();
    c.push((String::from_str("cluster"), NuValue::Str(cluster.clone())));
    c.push((String::from_str("hostname"), NuValue::Str(n.name.clone())));
    c.push((String::from_str("status"), NuValue::Str(n.status.clone())));
    c.push((String::from_str("services"), NuValue::Str(services_to_text(&n.services))));
    c.push((String::from_str("version"), NuValue::Str(String::new())));
    c.push((String::from_str("os"), NuValue::Str(String::new())));
    c.push((String::from_str("memory_total"), NuValue::Str(String::new())));
    c.push((String::from_str("memory_free"), NuValue::Str(String::new())));
    c.push((String::from_str("capella"), NuValue::Boolean(true)));
    proof {
        lemma_nu_entries_view(c@);
    }
    assert(crate::row::entries_of(c@) =~= capella_node_row(cluster@, *n)->Row_0);
    NuValue::Row(c)
}

/// The rows for the nodes of a self-managed cluster, in order.
pub open spec fn node_rows(cluster: Seq<char>, ns: Seq<NodeInfo>) -> Seq<NuView> {
    ns.map_values(|n: NodeInfo| node_row(cluster, n))
}

/// The rows for the nodes of a Capella cluster, in order.
pub open spec fn capella_node_rows(cluster: Seq<char>, ns: Seq<CapellaNode>) -> Seq<NuView> {
    ns.map_values(|n: CapellaNode| capella_node_row(cluster, n))
}

/// The next thing `nodes` must do.
#[derive(Debug, PartialEq)]
pub enum NodesStep {
    /// Every cluster has answered.
    Done,
    /// The run stops with this error.
    Fail(CliError),
    /// Ask the self-managed cluster with this identifier for its pool.
    FetchPool(String),
    /// Ask Capella, through this organisation, for the health of the hosted
    /// cluster with this identifier.
    FetchCapella { identifier: String, org: String },
}

/// A `nodes` run over clusters, one after another: the identifiers, how
/// many clusters have answered, and the rows so far.
pub struct NodesListing {
    identifiers: Vec<String>,
    next: usize,
    rows: Vec<NuValue>,
}

/// The view of a run: the identifiers, how many have answered, the rows so far.
pub struct ListingView {
    pub identifiers: Seq<Seq<char>>,
    pub answered: int,
    pub rows: Seq<NuView>,
}

impl View for NodesListing {
    type V = ListingView;

    closed spec fn view(&self) -> ListingView {
        ListingView {
            identifiers: texts_view(self.identifiers@),
            answered: self.next as int,
            rows: self.rows@.map_values(|x: NuValue| x@),
        }
    }
}

/// The error for a cluster the shell does not manage.
pub open spec fn cluster_not_found() -> ErrorView {
    ErrorView::Labeled("Cluster not found"@, "Cluster not found"@)
}

/// `nodes` fails on a cluster the shell does not manage with a labeled
/// "Cluster not found" error.
pub proof fn unknown_cluster_is_not_found()
    ensures
        cluster_not_found() == ErrorView::Labeled("Cluster not found"@, "Cluster not found"@),
{
}

impl NodesListing {
    /// A run over the clusters that `--clusters` selects (the active one by
    /// default); a bad regex is an error.
    pub fn start(state: &State, clusters_flag: Option<String>) -> (r: Result<Self, CliError>)
        ensures
            match cluster_identifiers_spec(identifiers_view(state.clusters@), state.active@, opt_view(clusters_flag), true) {
                Err(e) => r matches Err(x) && x@ == e,
                Ok(ids) => r matches Ok(l) && l@ == (ListingView { identifiers: ids, answered: 0, rows: Seq::empty() }),
            },
    {
        match cluster_identifiers_from(state, clusters_flag, true) {
            Ok(ids) => {
                let l = NodesListing { identifiers: ids, next: 0, rows: Vec::new() };
                assert(l@.rows =~= Seq::<NuView>::empty());
                Ok(l)
            },
            Err(e) => Err(e),
        }
    }

    /// The next thing to do: done when every cluster has answered; else an
    /// error when the state has no cluster with the next identifier; else ask
    /// Capella when the cluster is hosted there, or the cluster itself.
    pub fn step(&self, state: &State) -> (r: NodesStep)
        ensures
            self@.answered >= self@.identifiers.len() ==> r is Done,
            self@.answered < self@.identifiers.len() ==> match state.position_of(self@.identifiers[self@.answered]) {
                None => r matches NodesStep::Fail(e) && e@ == cluster_not_found(),
                Some(i) => match state.clusters@[i].1.capella_org {
                    Some(org) => r matches NodesStep::FetchCapella { identifier, org: o } && identifier@
                        == self@.identifiers[self@.answered] && o == org,
                    None => r matches NodesStep::FetchPool(id) && id@ == self@.identifiers[self@.answered],
                },
            },
    {
        if self.next >= self.identifiers.len() {
            return NodesStep::Done;
        }
        let id = &self.identifiers[self.next];
        match state.cluster(id) {
            Some(c) => match &c.capella_org {
                Some(org) => NodesStep::FetchCapella { identifier: id.clone(), org: org.clone() },
                None => NodesStep::FetchPool(id.clone()),
            },
            None => NodesStep::Fail(
                CliError::Labeled(String::from_str("Cluster not found"), String::from_str("Cluster not found")),
            ),
        }
    }

    /// Records a self-managed cluster's answer to the request for its pool:
    /// with status 200 and a pool that decodes, one row per node and the next
    /// cluster is due; with status 200 and a body that does not decode, an
    /// error naming the decoding failure; with any other status, an error
    /// with the body. An error changes nothing.
    pub fn record_pool(&mut self, status: u16, content: String, parsed: Result<PoolInfo, String>) -> (r: Result<(), CliError>)
        requires
            old(self)@.answered < old(self)@.identifiers.len(),
        ensures
            status != 200 ==> final(self)@ == old(self)@ && (r matches Err(e) && e@ == ErrorView::Labeled(
                "Request failed "@ + content@,
                Seq::empty(),
            )),
            status == 200 ==> match parsed {
                Err(m) => final(self)@ == old(self)@ && (r matches Err(e) && e@ == ErrorView::Labeled(
                    "Failed to decode response body "@ + m@,
                    "Failed to decode response body "@ + m@,
                )),
                Ok(p) => r is Ok && final(self)@ == (ListingView {
                    identifiers: old(self)@.identifiers,
                    answered: old(self)@.answered + 1,
                    rows: old(self)@.rows + node_rows(old(self)@.identifiers[old(self)@.answered], p.nodes@),
                }),
            },
    {
        if status != 200 {
            return Err(CliError::Labeled(String::from_str("Request failed ").concat(content.as_str()), String::new()));
        }
        let pool = match parsed {
            Ok(m) => m,
            Err(e) => {
                let msg = String::from_str("Failed to decode response body ").concat(e.as_str());
                let label = String::from_str("Failed to decode response body ").concat(e.as_str());
                return Err(CliError::Labeled(msg, label));
            },
        };
        let ghost id = texts_view(self.identifiers@)[self.next as int];
        let ghost start = self.rows@.map_values(|x: NuValue| x@);
        let mut i: usize = 0;
        while i < pool.nodes.len()
            invariant
                i <= pool.nodes@.len(),
                self.next < self.identifiers@.len(),
                self.identifiers@ == old(self).identifiers@,
                self.next == old(self).next,
                id == texts_view(self.identifiers@)[self.next as int],
                start == old(self).rows@.map_values(|x: NuValue| x@),
                self.rows@.map_values(|x: NuValue| x@) == start + node_rows(id, pool.nodes@.take(i as int)),
            decreases pool.nodes@.len() - i,
        {
            let row = node_to_row(&self.identifiers[self.next], &pool.nodes[i]);
            let ghost before = self.rows@;
            self.rows.push(row);
            assert(self.rows@.map_values(|x: NuValue| x@) =~= before.map_values(|x: NuValue| x@).push(row@));
            assert(pool.nodes@.take(i + 1) =~= pool.nodes@.take(i as int).push(pool.nodes@[i as int]));
            assert(node_rows(id, pool.nodes@.take(i + 1)) =~= node_rows(id, pool.nodes@.take(i as int)).push(node_row(id, pool.nodes@[i as int])));
            i = i + 1;
        }
        assert(pool.nodes@.take(pool.nodes@.len() as int) =~= pool.nodes@);
        let count: usize = self.identifiers.len();
        assert(self.next < count);
        self.next = self.next + 1;
        Ok(())
    }

    /// Records Capella's answer to the request for a hosted cluster's health:
    /// with any status but 200, an error whose message and label are the
    /// body; with a body that does not decode, an error whose message and
    /// label name the decoding failure; else one row per node and the next
    /// cluster is due. An error changes nothing.
    pub fn record_capella(&mut self, status: u16, content: String, parsed: Result<Vec<CapellaNode>, String>) -> (r: Result<(), CliError>)
        requires
            old(self)@.answered < old(self)@.identifiers.len(),
        ensures
            status != 200 ==> final(self)@ == old(self)@ && (r matches Err(e) && e@ == ErrorView::Labeled(content@, content@)),
            status == 200 ==> match parsed {
                Err(m) => final(self)@ == old(self)@ && (r matches Err(e) && e@ == ErrorView::Labeled(m@, m@)),
                Ok(ns) => r is Ok && final(self)@ == (ListingView {
                    identifiers: old(self)@.identifiers,
                    answered: old(self)@.answered + 1,
                    rows: old(self)@.rows + capella_node_rows(old(self)@.identifiers[old(self)@.answered], ns@),
                }),
            },
    {
        if status != 200 {
            let label = content.clone();
            return Err(CliError::Labeled(content, label));
        }
        let nodes = match parsed {
            Ok(m) => m,
            Err(e) => {
                let label = e.clone();
                return Err(CliError::Labeled(e, label));
            },
        };
        let ghost id = texts_view(self.identifiers@)[self.next as int];
        let ghost start = self.rows@.map_values(|x: NuValue| x@);
        let mut i: usize = 0;
        while i < nodes.len()
            invariant
                i <= nodes@.len(),
                self.next < self.identifiers@.len(),
                self.identifiers@ == old(self).identifiers@,
                self.next == old(self).next,
                id == texts_view(self.identifiers@)[self.next as int],
                start == old(self).rows@.map_values(|x: NuValue| x@),
                self.rows@.map_values(|x: NuValue| x@) == start + capella_node_rows(id, nodes@.take(i as int)),
            decreases nodes@.len() - i,
        {
            let row = capella_node_to_row(&self.identifiers[self.next], &nodes[i]);
            let ghost before = self.rows@;
            self.rows.push(row);
            assert(self.rows@.map_values(|x: NuValue| x@) =~= before.map_values(|x: NuValue| x@).push(row@));
            assert(nodes@.take(i + 1) =~= nodes@.take(i as int).push(nodes@[i as int]));
            assert(capella_node_rows(id, nodes@.take(i + 1)) =~= capella_node_rows(id, nodes@.take(i as int)).push(capella_node_row(id, nodes@[i as int])));
            i = i + 1;
        }
        assert(nodes@.take(nodes@.len() as int) =~= nodes@);
        let count: usize = self.identifiers.len();
        assert(self.next < count);
        self.next = self.next + 1;
        Ok(())
    }

    /// The rows of the run.
    pub fn into_rows(self) -> (r: Vec<NuValue>)
        ensures
            r@.map_values(|x: NuValue| x@) == self@.rows,
    {
        self.rows
    }
}

} // verus!
