//! The `buckets get` command: fetches the settings of one bucket, or of all
//! buckets, from each cluster addressed, and lists them one row per bucket.

use vstd::prelude::*;
use std::sync::Arc;
use crate::error::{CliError, ErrorView};
use crate::state::State;
use crate::signature::{CommandSignature, SignatureView, SyntaxShape};
use crate::value::{IntValue, IntView, NuValue, NuView};
use crate::text::{lowercase_of, to_lowercase};
use crate::row::{column, keys_distinct, lemma_column_of_distinct, lemma_nu_entries_view};
use crate::state::{texts_view, identifiers_view, opt_view};
use crate::args::{cluster_identifiers_from, cluster_identifiers_spec};

verus! {

/// The `buckets get` command.
pub struct BucketsGet {
    state: Arc<State>,
}

/// The arguments `buckets get` declares.
pub open spec fn buckets_get_signature() -> SignatureView {
    SignatureView {
        name: "buckets get"@,
        required: Seq::empty(),
        named: seq![
            ("bucket"@, SyntaxShape::String, "the name of the bucket"@, None),
            ("clusters"@, SyntaxShape::String, "the clusters which should be contacted"@, None),
        ],
    }
}

impl BucketsGet {
    /// The state the command reads.
    pub closed spec fn shared_state(&self) -> Arc<State> {
        self.state
    }

    /// The command, reading `state`.
    pub fn new(state: Arc<State>) -> (r: Self)
        ensures
            r.shared_state() == state,
    {
        Self { state }
    }

    /// The state the command reads.
    pub fn state(&self) -> (r: &Arc<State>)
        ensures
            *r == self.shared_state(),
    {
        &self.state
    }

    pub fn name(&self) -> (r: &'static str)
        ensures
            r@ == "buckets get"@,
    {
        "buckets get"
    }

    pub fn signature(&self) -> (r: CommandSignature)
        ensures
            r@ == buckets_get_signature(),
    {
        let r = CommandSignature::build("buckets get")
            .named("bucket", SyntaxShape::String, "the name of the bucket", None)
            .named("clusters", SyntaxShape::String, "the clusters which should be contacted", None);
        assert(r@.named =~= buckets_get_signature().named);
        r
    }

    pub fn usage(&self) -> (r: &'static str)
        ensures
            r@ == "Fetches buckets through the HTTP API"@,
    {
        "Fetches buckets through the HTTP API"
    }
}

/// Which buckets `buckets get` fetches.
#[derive(Debug, PartialEq)]
pub enum BucketsQuery {
    All,
    One(String),
}

/// Which buckets to fetch: the one `--bucket` names, or all of them when it
/// is absent or empty.
pub fn buckets_query(bucket_flag: Option<String>) -> (r: BucketsQuery)
    ensures
        match bucket_flag {
            Some(b) => if b@.len() == 0 {
                r is All
            } else {
                r == BucketsQuery::One(b)
            },
            None => r is All,
        },
{
    match bucket_flag {
        Some(b) => {
            if b.as_str().unicode_len() == 0 {
                BucketsQuery::All
            } else {
                BucketsQuery::One(b)
            }
        },
        None => BucketsQuery::All,
    }
}

/// The settings of a bucket, as the shell shows them.
#[derive(Debug, PartialEq)]
pub struct BucketSettingsInfo {
    pub name: String,
    /// The `Debug` text of the bucket's type.
    pub bucket_type: String,
    pub num_replicas: u32,
    /// The memory quota, in megabytes.
    pub ram_quota_mb: u64,
    pub flush_enabled: bool,
    /// The `Display` text of the minimum durability level.
    pub min_durability_level: String,
}

/// The quota in bytes fits a `u64`.
pub open spec fn quota_fits(b: BucketSettingsInfo) -> bool {
    b.ram_quota_mb * 1000 * 1000 <= u64::MAX
}

/// The row for a bucket of cluster `cluster`: the cluster, the name, the
/// lowercased type, the replica count, the quota in bytes (megabytes times a
/// million), whether flush is on, and the minimum durability level.
pub open spec fn bucket_row(b: BucketSettingsInfo, cluster: Seq<char>) -> NuView {
    NuView::Row(
        seq![
            ("cluster"@, NuView::Str(cluster)),
            ("name"@, NuView::Str(b.name@)),
            ("type"@, NuView::Str(lowercase_of(b.bucket_type@))),
            ("replicas"@, NuView::Int(IntView::Small(b.num_replicas as i64))),
            ("ram_quota"@, NuView::Filesize((b.ram_quota_mb * 1000 * 1000) as u64)),
            ("flush_enabled"@, NuView::Boolean(b.flush_enabled)),
            ("min_durability_level"@, NuView::Str(b.min_durability_level@)),
        ],
    )
}

/// The row for a bucket names each column once and shows the bucket's
/// settings: its cluster and name, its type in lower case, its replicas, its
/// memory quota in bytes (megabytes times a million), whether flushing is
/// enabled, and its minimum durability level.
pub proof fn bucket_row_shows_the_settings(b: BucketSettingsInfo, cluster: Seq<char>)
    requires
        quota_fits(b),
    ensures
        bucket_row(b, cluster) matches NuView::Row(c) && keys_distinct(c) && c.len() == 7,
        column(bucket_row(b, cluster), "cluster"@) == Some(NuView::Str(cluster)),
        column(bucket_row(b, cluster), "name"@) == Some(NuView::Str(b.name@)),
        column(bucket_row(b, cluster), "type"@) == Some(NuView::Str(lowercase_of(b.bucket_type@))),
        column(bucket_row(b, cluster), "replicas"@) == Some(NuView::Int(IntView::Small(b.num_replicas as i64))),
        column(bucket_row(b, cluster), "ram_quota"@) matches Some(NuView::Filesize(q)) && q == b.ram_quota_mb * 1_000_000,
        column(bucket_row(b, cluster), "flush_enabled"@) == Some(NuView::Boolean(b.flush_enabled)),
        column(bucket_row(b, cluster), "min_durability_level"@) == Some(NuView::Str(b.min_durability_level@)),
{
    reveal_strlit("cluster");
    reveal_strlit("name");
    reveal_strlit("type");
    reveal_strlit("replicas");
    reveal_strlit("ram_quota");
    reveal_strlit("flush_enabled");
    reveal_strlit("min_durability_level");
    let c = bucket_row(b, cluster)->Row_0;
    assert(c[0].0 == "cluster"@);
    assert(c[1].0 == "name"@);
    assert(c[2].0 == "type"@);
    assert(c[3].0 == "replicas"@);
    assert(c[4].0 == "ram_quota"@);
    assert(c[5].0 == "flush_enabled"@);
    assert(c[6].0 == "min_durability_level"@);
    assert forall|i: int, j: int| 0 <= i < j < 7 implies c[i].0 != c[j].0 by {
        if i == 0 && j == 1 {
            assert(c[0].0.len() != c[1].0.len());
        } else if i == 0 && j == 2 {
            assert(c[0].0.len() != c[2].0.len());
        } else if i == 0 && j == 3 {
            assert(c[0].0.len() != c[3].0.len());
        } else if i == 0 && j == 4 {
            assert(c[0].0.len() != c[4].0.len());
        } else if i == 0 && j == 5 {
            assert(c[0].0.len() != c[5].0.len());
        } else if i == 0 && j == 6 {
            assert(c[0].0.len() != c[6].0.len());
        } else if i == 1 && j == 2 {
            assert(c[1].0[0] != c[2].0[0]);
        } else if i == 1 && j == 3 {
            assert(c[1].0.len() != c[3].0.len());
        } else if i == 1 && j == 4 {
            assert(c[1].0.len() != c[4].0.len());
        } else if i == 1 && j == 5 {
            assert(c[1].0.len() != c[5].0.len());
        } else if i == 1 && j == 6 {
            assert(c[1].0.len() != c[6].0.len());
        } else if i == 2 && j == 3 {
            assert(c[2].0.len() != c[3].0.len());
        } else if i == 2 && j == 4 {
            assert(c[2].0.len() != c[4].0.len());
        } else if i == 2 && j == 5 {
            assert(c[2].0.len() != c[5].0.len());
        } else if i == 2 && j == 6 {
            assert(c[2].0.len() != c[6].0.len());
        } else if i == 3 && j == 4 {
            assert(c[3].0.len() != c[4].0.len());
        } else if i == 3 && j == 5 {
            assert(c[3].0.len() != c[5].0.len());
        } else if i == 3 && j == 6 {
            assert(c[3].0.len() != c[6].0.len());
        } else if i == 4 && j == 5 {
            assert(c[4].0.len() != c[5].0.len());
        } else if i == 4 && j == 6 {
            assert(c[4].0.len() != c[6].0.len());
        } else if i == 5 && j == 6 {
            assert(c[5].0.len() != c[6].0.len());
        }
    }
    assert(keys_distinct(c));
    lemma_column_of_distinct(c, 0);
    lemma_column_of_distinct(c, 1);
    lemma_column_of_distinct(c, 2);
    lemma_column_of_distinct(c, 3);
    lemma_column_of_distinct(c, 4);
    lemma_column_of_distinct(c, 5);
    lemma_column_of_distinct(c, 6);
}

/// The rows for buckets of cluster `cluster`, in order.
pub open spec fn bucket_rows(bs: Seq<BucketSettingsInfo>, cluster: Seq<char>) -> Seq<NuView> {
    bs.map_values(|b: BucketSettingsInfo| bucket_row(b, cluster))
}

/// There is one row per bucket, in the buckets' order, each the row for its bucket.
pub proof fn one_row_per_bucket(bs: Seq<BucketSettingsInfo>, cluster: Seq<char>)
    ensures
        bucket_rows(bs, cluster).len() == bs.len(),
        forall|i: int| 0 <= i < bs.len() ==> #[trigger] bucket_rows(bs, cluster)[i] == bucket_row(bs[i], cluster),
{
}

/// The row for `bucket` of cluster `cluster_name`.
pub fn bucket_to_tagged_dict(bucket: &BucketSettingsInfo, cluster_name: String) -> (r: NuValue)
    requires
        quota_fits(*bucket),
    ensures
        r@ == bucket_row(*bucket, cluster_name@),
{
    let mut collected: Vec<(String, NuValue)> = Vec::new();
    collected.push((String::from_str("cluster"), NuValue::Str(cluster_name)));
    collected.push((String::from_str("name"), NuValue::Str(bucket.name.clone())));
    collected.push((String::from_str("type"), NuValue::Str(to_lowercase(bucket.bucket_type.as_str()))));
    collected.push((String::from_str("replicas"), NuValue::Int(IntValue::Small(bucket.num_replicas as i64))));
    collected.push((String::from_str("ram_quota"), NuValue::Filesize(bucket.ram_quota_mb * 1000 * 1000)));
    collected.push((String::from_str("flush_enabled"), NuValue::Boolean(bucket.flush_enabled)));
    collected.push((String::from_str("min_durability_level"), NuValue::Str(bucket.min_durability_level.clone())));
    proof {
        lemma_nu_entries_view(collected@);
    }
    assert(crate::row::entries_of(collected@) =~= bucket_row(*bucket, cluster_name@)->Row_0);
    NuValue::Row(collected)
}

/// The next thing `buckets get` must do.
#[derive(Debug, PartialEq)]
pub enum FetchStep {
    /// Every cluster has answered.
    Done,
    /// The run stops with this error.
    Fail(CliError),
    /// Fetch the buckets from the cluster with this identifier.
    Fetch(String),
}

/// A `buckets get` run over clusters, one after another: the identifiers,
/// how many clusters have answered, and the rows so far.
pub struct BucketsFetch {
    identifiers: Vec<String>,
    next: usize,
    rows: Vec<NuValue>,
}

/// The view of a run: the identifiers, how many have answered, the rows so far.
pub struct FetchView {
    pub identifiers: Seq<Seq<char>>,
    pub answered: int,
    pub rows: Seq<NuView>,
}

impl View for BucketsFetch {
    type V = FetchView;

    closed spec fn view(&self) -> FetchView {
        FetchView {
            identifiers: texts_view(self.identifiers@),
            answered: self.next as int,
            rows: self.rows@.map_values(|x: NuValue| x@),
        }
    }
}

impl BucketsFetch {
    /// A run over the clusters with these identifiers, in order.
    pub fn new(identifiers: Vec<String>) -> (r: Self)
        ensures
            r@ == (FetchView { identifiers: texts_view(identifiers@), answered: 0, rows: Seq::empty() }),
    {
        let r = BucketsFetch { identifiers, next: 0, rows: Vec::new() };
        assert(r@.rows =~= Seq::<NuView>::empty());
        r
    }

    /// The next thing to do: done when every cluster has answered; else an
    /// error when the state has no cluster with the next identifier; else
    /// fetch from that cluster.
    pub fn step(&self, state: &State) -> (r: FetchStep)
        ensures
            self@.answered >= self@.identifiers.len() ==> r is Done,
            self@.answered < self@.identifiers.len() ==> match state.position_of(self@.identifiers[self@.answered]) {
                None => r matches FetchStep::Fail(e) && e@ == ErrorView::Runtime("Cluster not found"@),
                Some(_) => r matches FetchStep::Fetch(id) && id@ == self@.identifiers[self@.answered],
            },
    {
        if self.next >= self.identifiers.len() {
            return FetchStep::Done;
        }
        let id = &self.identifiers[self.next];
        match state.cluster(id) {
            Some(_) => FetchStep::Fetch(id.clone()),
            None => FetchStep::Fail(CliError::Runtime(String::from_str("Cluster not found"))),
        }
    }

    /// Records the answer of the cluster asked last: its error ends the run
    /// with that error and changes nothing; its buckets add one row each,
    /// tagged with that cluster's identifier, and the next cluster is due.
    pub fn record(&mut self, reply: Result<Vec<BucketSettingsInfo>, CliError>) -> (r: Result<(), CliError>)
        requires
            old(self)@.answered < old(self)@.identifiers.len(),
            reply matches Ok(bs) ==> forall|i: int| 0 <= i < bs@.len() ==> quota_fits(#[trigger] bs@[i]),
        ensures
            match reply {
                Err(e) => r == Err::<(), CliError>(e) && final(self)@ == old(self)@,
                Ok(bs) => {
                    &&& r is Ok
                    &&& final(self)@ == (FetchView {
                        identifiers: old(self)@.identifiers,
                        answered: old(self)@.answered + 1,
                        rows: old(self)@.rows + bucket_rows(bs@, old(self)@.identifiers[old(self)@.answered]),
                    })
                },
            },
    {
        let bs = match reply {
            Ok(bs) => bs,
            Err(e) => {
                return Err(e);
            },
        };
        let ghost id = texts_view(self.identifiers@)[self.next as int];
        let ghost start = self.rows@.map_values(|x: NuValue| x@);
        let mut i: usize = 0;
        while i < bs.len()
            invariant
                i <= bs@.len(),
                self.next < self.identifiers@.len(),
                self.identifiers@ == old(self).identifiers@,
                self.next == old(self).next,
                id == texts_view(self.identifiers@)[self.next as int],
                start == old(self).rows@.map_values(|x: NuValue| x@),
                forall|k: int| 0 <= k < bs@.len() ==> quota_fits(#[trigger] bs@[k]),
                self.rows@.map_values(|x: NuValue| x@) == start + bucket_rows(bs@.take(i as int), id),
            decreases bs@.len() - i,
        {
            let ident = self.identifiers[self.next].clone();
            let row = bucket_to_tagged_dict(&bs[i], ident);
            let ghost before = self.rows@;
            self.rows.push(row);
            assert(self.rows@.map_values(|x: NuValue| x@) =~= before.map_values(|x: NuValue| x@).push(row@));
            assert(bs@.take(i + 1) =~= bs@.take(i as int).push(bs@[i as int]));
            assert(bucket_rows(bs@.take(i + 1), id) =~= bucket_rows(bs@.take(i as int), id).push(bucket_row(bs@[i as int], id)));
            i = i + 1;
        }
        assert(bs@.take(bs@.len() as int) =~= bs@);
        let count: usize = self.identifiers.len();
        assert(self.next < count);
        self.next = self.next + 1;
        Ok(())
    }

    /// The rows of the run.
    pub fn into_rows(self) -> (r: Vec<NuValue>)
        ensures
            r@.map_values(|x: NuValue| x@) == self@.rows,
    {
        self.rows
    }
}


/// Starts `buckets get`: the clusters that `--clusters` selects (the active
/// one by default; a bad regex is an error), and which buckets to fetch from
/// each of them.
pub fn buckets_get(state: &State, clusters_flag: Option<String>, bucket_flag: Option<String>) -> (r: Result<(BucketsQuery, BucketsFetch), CliError>)
    ensures
        match cluster_identifiers_spec(identifiers_view(state.clusters@), state.active@, opt_view(clusters_flag), true) {
            Err(e) => r matches Err(x) && x@ == e,
            Ok(ids) => r matches Ok((q, f)) && {
                &&& f@ == (FetchView { identifiers: ids, answered: 0, rows: Seq::empty() })
                &&& match bucket_flag {
                    Some(b) => if b@.len() == 0 {
                        q is All
                    } else {
                        q == BucketsQuery::One(b)
                    },
                    None => q is All,
                }
            },
        },
{
    let identifiers = match cluster_identifiers_from(state, clusters_flag, true) {
        Ok(ids) => ids,
        Err(e) => {
            return Err(e);
        },
    };
    let query = buckets_query(bucket_flag);
    Ok((query, BucketsFetch::new(identifiers)))
}

} // verus!
