//! The `clusters` command: lists the managed clusters that `--clusters`
//! selects (all of them by default), one row each.

use vstd::prelude::*;
use std::sync::Arc;
use crate::error::{CliError, ErrorView};
use crate::state::{State, ClusterView, opt_view, identifiers_view, clusters_view, texts_view};
use crate::signature::{CommandSignature, SignatureView, SyntaxShape};
use crate::value::{NuValue, NuView};
use crate::args::{cluster_identifiers_from, cluster_identifiers_spec};
use crate::text::{starts_with, has_prefix, contains_text};
use crate::row::{column, lemma_column_of_distinct, keys_distinct, lemma_filter_keys_distinct, lemma_nu_entries_view};

verus! {

/// The `clusters` command.
pub struct Clusters {
    state: Arc<State>,
}

/// The arguments `clusters` declares.
pub open spec fn clusters_signature() -> SignatureView {
    SignatureView {
        name: "clusters"@,
        required: Seq::empty(),
        named: seq![("clusters"@, SyntaxShape::String, "the clusters which should be contacted"@, None)],
    }
}

impl Clusters {
    /// The state the command reads.
    pub closed spec fn shared_state(&self) -> Arc<State> {
        self.state
    }

    /// The command, reading `state`.
    pub fn new(state: Arc<State>) -> (r: Self)
        ensures
            r.shared_state() == state,
    {
        Self { state }
    }

    /// The state the command reads.
    pub fn state(&self) -> (r: &Arc<State>)
        ensures
            *r == self.shared_state(),
    {
        &self.state
    }

    pub fn name(&self) -> (r: &'static str)
        ensures
            r@ == "clusters"@,
    {
        "clusters"
    }

    pub fn signature(&self) -> (r: CommandSignature)
        ensures
            r@ == clusters_signature(),
    {
        let r = CommandSignature::build("clusters").named(
            "clusters",
            SyntaxShape::String,
            "the clusters which should be contacted",
            None,
        );
        assert(r@.named =~= clusters_signature().named);
        r
    }

    pub fn usage(&self) -> (r: &'static str)
        ensures
            r@ == "Lists all managed clusters"@,
    {
        "Lists all managed clusters"
    }
}

/// The row for one cluster: whether it is the active one, whether its
/// connection string asks for TLS (`couchbases://`), its identifier and its user.
pub open spec fn cluster_row(id: Seq<char>, c: ClusterView, active: Seq<char>) -> NuView {
    NuView::Row(
        seq![
            ("active"@, NuView::Boolean(id == active)),
            ("tls"@, NuView::Boolean(has_prefix(c.connstr, "couchbases://"@))),
            ("identifier"@, NuView::Str(id)),
            ("username"@, NuView::Str(c.username)),
        ],
    )
}

/// The row for a cluster names each column once: it is marked active exactly
/// when its identifier is the active one, shows TLS exactly when its
/// connection string starts with `couchbases://`, and shows its identifier
/// and its user.
pub proof fn cluster_row_shows_the_cluster(id: Seq<char>, c0: ClusterView, active: Seq<char>)
    ensures
        cluster_row(id, c0, active) matches NuView::Row(c) && keys_distinct(c) && c.len() == 4,
        column(cluster_row(id, c0, active), "active"@) == Some(NuView::Boolean(id == active)),
        column(cluster_row(id, c0, active), "tls"@) == Some(NuView::Boolean(has_prefix(c0.connstr, "couchbases://"@))),
        column(cluster_row(id, c0, active), "identifier"@) == Some(NuView::Str(id)),
        column(cluster_row(id, c0, active), "username"@) == Some(NuView::Str(c0.username)),
{
    reveal_strlit("active");
    reveal_strlit("tls");
    reveal_strlit("identifier");
    reveal_strlit("username");
    let c = cluster_row(id, c0, active)->Row_0;
    assert(c[0].0 == "active"@);
    assert(c[1].0 == "tls"@);
    assert(c[2].0 == "identifier"@);
    assert(c[3].0 == "username"@);
    assert forall|i: int, j: int| 0 <= i < j < 4 implies c[i].0 != c[j].0 by {
        if i == 0 && j == 1 {
            assert(c[0].0.len() != c[1].0.len());
        } else if i == 0 && j == 2 {
            assert(c[0].0.len() != c[2].0.len());
        } else if i == 0 && j == 3 {
            assert(c[0].0.len() != c[3].0.len());
        } else if i == 1 && j == 2 {
            assert(c[1].0.len() != c[2].0.len());
        } else if i == 1 && j == 3 {
            assert(c[1].0.len() != c[3].0.len());
        } else if i == 2 && j == 3 {
            assert(c[2].0.len() != c[3].0.len());
        }
    }
    assert(keys_distinct(c));
    lemma_column_of_distinct(c, 0);
    lemma_column_of_distinct(c, 1);
    lemma_column_of_distinct(c, 2);
    lemma_column_of_distinct(c, 3);
}

/// The rows for the clusters among `selected`, in the state's order.
pub open spec fn cluster_rows(
    clusters: Seq<(Seq<char>, ClusterView)>,
    selected: Seq<Seq<char>>,
    active: Seq<char>,
) -> Seq<NuView> {
    clusters.filter(|p: (Seq<char>, ClusterView)| selected.contains(p.0)).map_values(
        |p: (Seq<char>, ClusterView)| cluster_row(p.0, p.1, active),
    )
}

/// Whether a row that `clusters` lists marks its cluster as the active one.
pub open spec fn row_marked_active(r: NuView) -> bool {
    r matches NuView::Row(c) && c.len() > 0 && c[0].1 == NuView::Boolean(true)
}

/// With distinct identifiers (a well-formed state), the rows that `clusters`
/// lists name distinct clusters, and at most one of them is marked active.
pub proof fn clusters_mark_at_most_one_active(
    clusters: Seq<(Seq<char>, ClusterView)>,
    selected: Seq<Seq<char>>,
    active: Seq<char>,
)
    requires
        keys_distinct(clusters),
    ensures
        keys_distinct(clusters.filter(|p: (Seq<char>, ClusterView)| selected.contains(p.0))),
        forall|i: int, j: int|
            0 <= i < j < cluster_rows(clusters, selected, active).len()
                && row_marked_active(#[trigger] cluster_rows(clusters, selected, active)[i])
                ==> !row_marked_active(#[trigger] cluster_rows(clusters, selected, active)[j]),
{
    let pred = |p: (Seq<char>, ClusterView)| selected.contains(p.0);
    lemma_filter_keys_distinct(clusters, pred);
    let f = clusters.filter(pred);
    let rows = cluster_rows(clusters, selected, active);
    assert forall|i: int| 0 <= i < rows.len() implies (row_marked_active(#[trigger] rows[i]) <==> f[i].0 == active) by {
        assert(rows[i] == cluster_row(f[i].0, f[i].1, active));
    }
}

/// `clusters` lists a row for exactly the clusters whose identifiers are
/// selected, in the state's order: each row is the row of such a cluster,
/// and every such cluster has its row.
pub proof fn clusters_lists_exactly_the_selected(
    clusters: Seq<(Seq<char>, ClusterView)>,
    selected: Seq<Seq<char>>,
    active: Seq<char>,
)
    ensures
        cluster_rows(clusters, selected, active).len() <= clusters.len(),
        forall|i: int| 0 <= i < cluster_rows(clusters, selected, active).len() ==> exists|j: int|
            0 <= j < clusters.len() && selected.contains(clusters[j].0)
                && #[trigger] cluster_rows(clusters, selected, active)[i] == cluster_row(clusters[j].0, clusters[j].1, active),
        forall|j: int| 0 <= j < clusters.len() && selected.contains(#[trigger] clusters[j].0) ==>
            cluster_rows(clusters, selected, active).contains(cluster_row(clusters[j].0, clusters[j].1, active)),
{
    broadcast use vstd::seq_lib::group_filter_ensures;
    let pred = |p: (Seq<char>, ClusterView)| selected.contains(p.0);
    let mk = |p: (Seq<char>, ClusterView)| cluster_row(p.0, p.1, active);
    let f = clusters.filter(pred);
    let rows = cluster_rows(clusters, selected, active);
    assert(rows == f.map_values(mk));
    assert forall|i: int| 0 <= i < rows.len() implies exists|j: int|
        0 <= j < clusters.len() && selected.contains(clusters[j].0)
            && #[trigger] rows[i] == cluster_row(clusters[j].0, clusters[j].1, active) by {
        assert(f.contains(f[i]));
        clusters.lemma_filter_contains_rev(pred, f[i]);
        let j = choose|j: int| 0 <= j < clusters.len() && clusters[j] == f[i];
        assert(pred(f[i]));
        assert(rows[i] == mk(f[i]));
    }
    assert forall|j: int| 0 <= j < clusters.len() && selected.contains(#[trigger] clusters[j].0) implies
        rows.contains(cluster_row(clusters[j].0, clusters[j].1, active)) by {
        assert(pred(clusters[j]));
        clusters.lemma_filter_contains(pred, j);
        let i = choose|i: int| 0 <= i < f.len() && f[i] == clusters[j];
        assert(rows[i] == mk(f[i]));
    }
}

/// The view of an outcome that is a list of shell values.
pub open spec fn values_result_view(r: Result<Vec<NuValue>, CliError>) -> Result<Seq<NuView>, ErrorView> {
    match r {
        Ok(v) => Ok(v@.map_values(|x: NuValue| x@)),
        Err(e) => Err(e@),
    }
}

/// The row for one cluster.
fn cluster_row_value(id: &String, c: &crate::state::RemoteCluster, active: &String) -> (r: NuValue)
    ensures
        r@ == cluster_row(id@, c@, active@),
{
    let mut row: Vec<(String, NuValue)> = Vec::new();
    row.push((String::from_str("active"), NuValue::Boolean(*id == *active)));
    row.push((String::from_str("tls"), NuValue::Boolean(starts_with(c.connstr.as_str(), "couchbases://"))));
    row.push((String::from_str("identifier"), NuValue::Str(id.clone())));
    row.push((String::from_str("username"), NuValue::Str(c.username.clone())));
    proof {
        lemma_nu_entries_view(row@);
    }
    assert(crate::row::entries_of(row@) =~= seq![
        ("active"@, NuView::Boolean(id@ == active@)),
        ("tls"@, NuView::Boolean(has_prefix(c.connstr@, "couchbases://"@))),
        ("identifier"@, NuView::Str(id@)),
        ("username"@, NuView::Str(c.username@)),
    ]);
    NuValue::Row(row)
}

/// The rows for every cluster, in the state's order.
pub open spec fn all_cluster_rows(clusters: Seq<(Seq<char>, ClusterView)>, active: Seq<char>) -> Seq<NuView> {
    clusters.map_values(|p: (Seq<char>, ClusterView)| cluster_row(p.0, p.1, active))
}

/// Runs `clusters`: the rows for the clusters that `--clusters` selects (all
/// when it is absent), in the state's order; a bad regex is an error.
pub fn clusters(state: &State, clusters_flag: Option<String>) -> (r: Result<Vec<NuValue>, CliError>)
    ensures
        match cluster_identifiers_spec(identifiers_view(state.clusters@), state.active@, opt_view(clusters_flag), false) {
            Err(e) => values_result_view(r) == Err::<Seq<NuView>, ErrorView>(e),
            Ok(ids) => values_result_view(r) == Ok::<Seq<NuView>, ErrorView>(
                cluster_rows(clusters_view(state.clusters@), ids, state.active@),
            ),
        },
        clusters_flag is None ==> values_result_view(r) == Ok::<Seq<NuView>, ErrorView>(
            all_cluster_rows(clusters_view(state.clusters@), state.active@),
        ),
        state.well_formed() ==> (r matches Ok(rows) ==> forall|i: int, j: int|
            0 <= i < j < rows@.len() && row_marked_active(#[trigger] rows@[i]@)
                ==> !row_marked_active(#[trigger] rows@[j]@)),
{
    let ghost every: bool = clusters_flag is None;
    let identifiers = match cluster_identifiers_from(state, clusters_flag, false) {
        Ok(ids) => ids,
        Err(e) => {
            return Err(e);
        },
    };
    let ghost cv = clusters_view(state.clusters@);
    let ghost sel = texts_view(identifiers@);
    let ghost pred = |p: (Seq<char>, ClusterView)| sel.contains(p.0);
    let ghost mk = |p: (Seq<char>, ClusterView)| cluster_row(p.0, p.1, state.active@);
    let mut out: Vec<NuValue> = Vec::new();
    let mut i: usize = 0;
    assert(cv.take(0) =~= Seq::<(Seq<char>, ClusterView)>::empty());
    assert(out@.map_values(|x: NuValue| x@) =~= Seq::<NuView>::empty());
    while i < state.clusters.len()
        invariant
            i <= state.clusters@.len(),
            cv == clusters_view(state.clusters@),
            sel == texts_view(identifiers@),
            pred == (|p: (Seq<char>, ClusterView)| sel.contains(p.0)),
            mk == (|p: (Seq<char>, ClusterView)| cluster_row(p.0, p.1, state.active@)),
            out@.map_values(|x: NuValue| x@) == cv.take(i as int).filter(pred).map_values(mk),
            every ==> sel == identifiers_view(state.clusters@),
            every ==> out@.map_values(|x: NuValue| x@) == cv.take(i as int).map_values(mk),
        decreases state.clusters@.len() - i,
    {
        reveal_with_fuel(Seq::<_>::filter, 1);
        let entry = &state.clusters[i];
        assert(cv.take(i + 1).drop_last() =~= cv.take(i as int));
        assert(cv.take(i + 1).last() == (entry.0@, entry.1@));
        let ghost before = out@;
        proof {
            if every {
                assert(identifiers_view(state.clusters@)[i as int] == entry.0@);
                assert(sel.contains(entry.0@));
            }
        }
        if contains_text(&identifiers, &entry.0) {
            let row = cluster_row_value(&entry.0, &entry.1, &state.active);
            out.push(row);
            assert(out@.map_values(|x: NuValue| x@) =~= before.map_values(|x: NuValue| x@).push(mk((entry.0@, entry.1@))));
            assert(cv.take(i + 1).filter(pred) == cv.take(i as int).filter(pred).push((entry.0@, entry.1@)));
            assert(cv.take(i + 1).filter(pred).map_values(mk) =~= cv.take(i as int).filter(pred).map_values(mk).push(mk((entry.0@, entry.1@))));
            assert(cv.take(i + 1).map_values(mk) =~= cv.take(i as int).map_values(mk).push(mk((entry.0@, entry.1@))));
        } else {
            assert(cv.take(i + 1).filter(pred) == cv.take(i as int).filter(pred));
        }
        i = i + 1;
    }
    assert(cv.take(state.clusters@.len() as int) =~= cv);
    assert(cv.map_values(mk) =~= all_cluster_rows(cv, state.active@));
    proof {
        if state.well_formed() {
            clusters_mark_at_most_one_active(cv, sel, state.active@);
            let rows = cluster_rows(cv, sel, state.active@);
            assert(out@.map_values(|x: NuValue| x@) == rows);
            assert forall|i: int, j: int|
                0 <= i < j < out@.len() && row_marked_active(#[trigger] out@[i]@)
                    implies !row_marked_active(#[trigger] out@[j]@) by {
                assert(out@[i]@ == rows[i]);
                assert(out@[j]@ == rows[j]);
            }
        }
    }
    Ok(out)
}

} // verus!
