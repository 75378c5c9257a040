//! The `use bucket` command: sets the bucket in use on the active cluster.

use vstd::prelude::*;
use std::sync::{Arc, Mutex};
use crate::error::{CliError, ErrorView};
use crate::state::{State, RemoteCluster, clusters_view, identifiers_view, lemma_same_identifiers_same_distinctness};
use crate::signature::{CommandSignature, SignatureView, SyntaxShape};
use crate::value::{NuValue, NuView};
use crate::row::{column, lemma_nu_entries_view};

verus! {

/// The `use bucket` command.
pub struct UseBucket {
    state: Arc<Mutex<State>>,
}

/// The arguments `use bucket` declares.
pub open spec fn use_bucket_signature() -> SignatureView {
    SignatureView {
        name: "use bucket"@,
        required: seq![("identifier"@, SyntaxShape::String, "the name of the bucket"@)],
        named: Seq::empty(),
    }
}

impl UseBucket {
    /// The state the command changes.
    pub closed spec fn shared_state(&self) -> Arc<Mutex<State>> {
        self.state
    }

    /// The command, changing `state`.
    pub fn new(state: Arc<Mutex<State>>) -> (r: Self)
        ensures
            r.shared_state() == state,
    {
        Self { state }
    }

    /// The state the command changes.
    pub fn state(&self) -> (r: &Arc<Mutex<State>>)
        ensures
            *r == self.shared_state(),
    {
        &self.state
    }

    pub fn name(&self) -> (r: &'static str)
        ensures
            r@ == "use bucket"@,
    {
        "use bucket"
    }

    pub fn signature(&self) -> (r: CommandSignature)
        ensures
            r@ == use_bucket_signature(),
    {
        let r = CommandSignature::build("use bucket").required(
            "identifier",
            SyntaxShape::String,
            "the name of the bucket",
        );
        assert(r@.required =~= use_bucket_signature().required);
        r
    }

    pub fn usage(&self) -> (r: &'static str)
        ensures
            r@ == "Sets the active bucket based on its name"@,
    {
        "Sets the active bucket based on its name"
    }
}

/// The row `use bucket` answers with: the bucket now in use.
pub open spec fn using_now_row(bucket: Seq<char>) -> NuView {
    NuView::Row(seq![("bucket"@, NuView::Str(bucket))])
}

/// The answer of `use bucket` is one row with the single column `bucket`,
/// holding the bucket now in use.
pub proof fn using_now_names_the_bucket(bucket: Seq<char>)
    ensures
        using_now_row(bucket) matches NuView::Row(c) && c.len() == 1,
        column(using_now_row(bucket), "bucket"@) == Some(NuView::Str(bucket)),
{
    let c = using_now_row(bucket)->Row_0;
    crate::row::lemma_column_of_distinct(c, 0);
}

/// The cluster's settings with `bucket` in use.
pub open spec fn with_active_bucket(c: RemoteCluster, bucket: String) -> RemoteCluster {
    RemoteCluster { active_bucket: Some(bucket), ..c }
}

/// Runs `use bucket`: without an active cluster, an error and no change;
/// else the active cluster now uses `bucket`, nothing else changes, and the
/// answer is one row naming the bucket.
pub fn use_bucket(state: &mut State, bucket: String) -> (r: Result<Vec<NuValue>, CliError>)
    ensures
        match old(state).position_of(old(state).active@) {
            None => {
                &&& *final(state) == *old(state)
                &&& r matches Err(e) && e@ == ErrorView::Unexpected("An active cluster must be set"@)
            },
            Some(i) => {
                &&& final(state).active == old(state).active
                &&& final(state).clusters@ == old(state).clusters@.update(
                    i,
                    (old(state).clusters@[i].0, with_active_bucket(old(state).clusters@[i].1, bucket)),
                )
                &&& r matches Ok(rows) && rows@.map_values(|x: NuValue| x@) == seq![using_now_row(bucket@)]
            },
        },
        identifiers_view(final(state).clusters@) == identifiers_view(old(state).clusters@),
        final(state).well_formed() == old(state).well_formed(),
{
    let i = match state.position(&state.active) {
        Some(i) => i,
        None => {
            return Err(CliError::Unexpected(String::from_str("An active cluster must be set")));
        },
    };
    let id = state.clusters[i].0.clone();
    let mut cluster = state.clusters[i].1.duplicate();
    cluster.active_bucket = Some(bucket.clone());
    let ghost before = *state;
    state.clusters.set(i, (id, cluster));
    assert(identifiers_view(state.clusters@) =~= identifiers_view(before.clusters@));
    proof {
        lemma_same_identifiers_same_distinctness(state.clusters@, before.clusters@);
    }
    let mut using_now: Vec<(String, NuValue)> = Vec::new();
    using_now.push((String::from_str("bucket"), NuValue::Str(bucket)));
    proof {
        lemma_nu_entries_view(using_now@);
    }
    assert(crate::row::entries_of(using_now@) =~= using_now_row(bucket@)->Row_0);
    let mut rows: Vec<NuValue> = Vec::new();
    rows.push(NuValue::Row(using_now));
    assert(rows@.map_values(|x: NuValue| x@) =~= seq![using_now_row(bucket@)]);
    Ok(rows)
}

/// After `use bucket` succeeds, the active cluster is the same one and it
/// uses the bucket that was named; its other settings, and every other
/// cluster, are as they were.
pub proof fn use_bucket_then_active_bucket(before: State, after: State, bucket: String, i: int)
    requires
        before.position_of(before.active@) == Some(i),
        after.active == before.active,
        after.clusters@ == before.clusters@.update(
            i,
            (before.clusters@[i].0, with_active_bucket(before.clusters@[i].1, bucket)),
        ),
    ensures
        after.position_of(after.active@) == Some(i),
        after.clusters@[i].1.active_bucket == Some(bucket),
        after.clusters@[i].0 == before.clusters@[i].0,
        after.clusters@[i].1.connstr == before.clusters@[i].1.connstr,
        after.clusters@[i].1.username == before.clusters@[i].1.username,
        after.clusters@[i].1.active_scope == before.clusters@[i].1.active_scope,
        after.clusters@[i].1.active_collection == before.clusters@[i].1.active_collection,
        after.clusters@[i].1.capella_org == before.clusters@[i].1.capella_org,
        after.clusters@.len() == before.clusters@.len(),
        forall|j: int| 0 <= j < before.clusters@.len() && j != i ==> #[trigger] after.clusters@[j] == before.clusters@[j],
{
    crate::row::lemma_key_position(clusters_view(before.clusters@), before.active@);
    let a = clusters_view(after.clusters@);
    let b = clusters_view(before.clusters@);
    assert forall|j: int| 0 <= j < a.len() implies a[j].0 == b[j].0 by {}
    crate::row::lemma_key_position(a, after.active@);
}

} // verus!
