//! The shell's knowledge of the clusters it manages: each cluster's
//! connection settings and the bucket, scope and collection in use on it,
//! and which cluster is the active one.

use vstd::prelude::*;
use crate::row::{key_position, keys_distinct, lemma_key_position, row_insert, lemma_row_insert_distinct};

verus! {

/// A cluster the shell manages.
#[derive(Debug, PartialEq)]
pub struct RemoteCluster {
    /// The connection string.
    pub connstr: String,
    pub username: String,
    /// The bucket in use on this cluster, if one is set.
    pub active_bucket: Option<String>,
    /// The scope in use on this cluster, if one is set.
    pub active_scope: Option<String>,
    /// The collection in use on this cluster, if one is set.
    pub active_collection: Option<String>,
    /// The Capella organisation that hosts this cluster, if it is hosted there.
    pub capella_org: Option<String>,
}

/// The view of an optional text.
pub open spec fn opt_view(o: Option<String>) -> Option<Seq<char>> {
    match o {
        Some(s) => Some(s@),
        None => None,
    }
}

/// The view of a cluster's settings.
pub struct ClusterView {
    pub connstr: Seq<char>,
    pub username: Seq<char>,
    pub active_bucket: Option<Seq<char>>,
    pub active_scope: Option<Seq<char>>,
    pub active_collection: Option<Seq<char>>,
    pub capella_org: Option<Seq<char>>,
}

impl View for RemoteCluster {
    type V = ClusterView;

    open spec fn view(&self) -> ClusterView {
        ClusterView {
            connstr: self.connstr@,
            username: self.username@,
            active_bucket: opt_view(self.active_bucket),
            active_scope: opt_view(self.active_scope),
            active_collection: opt_view(self.active_collection),
            capella_org: opt_view(self.capella_org),
        }
    }
}

/// Copies an optional text.
pub fn copy_opt(o: &Option<String>) -> (r: Option<String>)
    ensures
        r == *o,
{
    match o {
        Some(s) => Some(s.clone()),
        None => None,
    }
}

impl RemoteCluster {
    /// A copy of these settings, equal to them.
    pub fn duplicate(&self) -> (r: RemoteCluster)
        ensures
            r == *self,
    {
        RemoteCluster {
            connstr: self.connstr.clone(),
            username: self.username.clone(),
            active_bucket: copy_opt(&self.active_bucket),
            active_scope: copy_opt(&self.active_scope),
            active_collection: copy_opt(&self.active_collection),
            capella_org: copy_opt(&self.capella_org),
        }
    }
}

/// `std::sync::Mutex`, declared so that commands can hold the shell's shared
/// state; nothing inside a mutex is visible to proofs, and the library never locks one.
#[verifier::external_type_specification]
#[verifier::external_body]
#[verifier::reject_recursive_types(T)]
pub struct ExMutex<T: ?Sized>(std::sync::Mutex<T>);

/// The clusters the shell manages, by identifier, and the active one.
#[derive(Debug, PartialEq)]
pub struct State {
    /// Each cluster under its identifier, in the order the shell lists them.
    pub clusters: Vec<(String, RemoteCluster)>,
    /// The identifier of the active cluster.
    pub active: String,
}

/// The view of the clusters of a state: identifier and settings, in order.
pub open spec fn clusters_view(s: Seq<(String, RemoteCluster)>) -> Seq<(Seq<char>, ClusterView)> {
    s.map_values(|p: (String, RemoteCluster)| (p.0@, p.1@))
}

/// The identifiers of the clusters, in order.
pub open spec fn identifiers_view(s: Seq<(String, RemoteCluster)>) -> Seq<Seq<char>> {
    s.map_values(|p: (String, RemoteCluster)| p.0@)
}

/// Two lists of clusters with the same identifiers in the same order are
/// alike in having distinct identifiers or not.
pub proof fn lemma_same_identifiers_same_distinctness(a: Seq<(String, RemoteCluster)>, b: Seq<(String, RemoteCluster)>)
    requires
        identifiers_view(a) == identifiers_view(b),
    ensures
        keys_distinct(clusters_view(a)) == keys_distinct(clusters_view(b)),
{
    let ca = clusters_view(a);
    let cb = clusters_view(b);
    assert(identifiers_view(a).len() == a.len());
    assert(identifiers_view(b).len() == b.len());
    assert(ca.len() == cb.len());
    assert forall|j: int| 0 <= j < ca.len() implies #[trigger] ca[j].0 == cb[j].0 by {
        assert(identifiers_view(a)[j] == a[j].0@);
        assert(identifiers_view(b)[j] == b[j].0@);
    }
    if keys_distinct(ca) {
        assert forall|i: int, j: int| 0 <= i < j < cb.len() implies cb[i].0 != cb[j].0 by {
            assert(ca[i].0 == cb[i].0 && ca[j].0 == cb[j].0);
        }
    }
    if keys_distinct(cb) {
        assert forall|i: int, j: int| 0 <= i < j < ca.len() implies ca[i].0 != ca[j].0 by {
            assert(ca[i].0 == cb[i].0 && ca[j].0 == cb[j].0);
        }
    }
}

/// The views of a sequence of texts.
pub open spec fn texts_view(s: Seq<String>) -> Seq<Seq<char>> {
    s.map_values(|t: String| t@)
}

impl State {
    /// No two clusters share an identifier, as in a map. `new` and
    /// `add_cluster` build only well-formed states, and `use_bucket` keeps
    /// them so.
    pub open spec fn well_formed(&self) -> bool {
        keys_distinct(clusters_view(self.clusters@))
    }

    /// The position of the cluster called `id`: the first one with that identifier.
    pub open spec fn position_of(&self, id: Seq<char>) -> Option<int> {
        key_position(clusters_view(self.clusters@), id)
    }

    /// The position of the cluster called `id`: the first one with that identifier.
    pub fn position(&self, id: &String) -> (r: Option<usize>)
        ensures
            match self.position_of(id@) {
                Some(i) => r matches Some(k) && k as int == i && 0 <= i < self.clusters@.len(),
                None => r is None,
            },
    {
        let ghost cv = clusters_view(self.clusters@);
        proof {
            lemma_key_position(cv, id@);
        }
        let mut i: usize = 0;
        while i < self.clusters.len()
            invariant
                i <= self.clusters@.len(),
                cv == clusters_view(self.clusters@),
                forall|j: int| 0 <= j < i ==> cv[j].0 != id@,
                match key_position(cv, id@) {
                    Some(p) => 0 <= p < cv.len() && cv[p].0 == id@ && forall|j: int| 0 <= j < p ==> cv[j].0 != id@,
                    None => forall|j: int| 0 <= j < cv.len() ==> cv[j].0 != id@,
                },
            decreases self.clusters@.len() - i,
        {
            if self.clusters[i].0 == *id {
                assert(cv[i as int].0 == id@);
                return Some(i);
            }
            i = i + 1;
        }
        None
    }

    /// The cluster called `id`, if the shell manages one.
    pub fn cluster(&self, id: &String) -> (r: Option<&RemoteCluster>)
        ensures
            match self.position_of(id@) {
                Some(i) => r == Some(&self.clusters@[i].1),
                None => r is None,
            },
    {
        match self.position(id) {
            Some(i) => Some(&self.clusters[i].1),
            None => None,
        }
    }

    /// The active cluster, if the shell manages one by that identifier.
    pub fn active_cluster(&self) -> (r: Option<&RemoteCluster>)
        ensures
            match self.position_of(self.active@) {
                Some(i) => r == Some(&self.clusters@[i].1),
                None => r is None,
            },
    {
        self.cluster(&self.active)
    }

    /// A state that manages no cluster yet, with `active` naming the cluster
    /// to make active.
    pub fn new(active: String) -> (r: State)
        ensures
            r.clusters@.len() == 0,
            r.active == active,
            r.well_formed(),
    {
        State { clusters: Vec::new(), active }
    }

    /// Adds the cluster called `id`, as inserting into a map does: it
    /// replaces the settings of a cluster already called so, in place, and
    /// otherwise goes at the end. The state stays well formed.
    pub fn add_cluster(&mut self, id: String, cluster: RemoteCluster)
        ensures
            final(self).active == old(self).active,
            match old(self).position_of(id@) {
                Some(i) => final(self).clusters@ == old(self).clusters@.update(i, (old(self).clusters@[i].0, cluster)),
                None => final(self).clusters@ == old(self).clusters@.push((id, cluster)),
            },
            clusters_view(final(self).clusters@) == row_insert(clusters_view(old(self).clusters@), id@, cluster@),
            old(self).well_formed() ==> final(self).well_formed(),
    {
        let ghost before = self.clusters@;
        let ghost cv = clusters_view(before);
        proof {
            lemma_key_position(cv, id@);
            if keys_distinct(cv) {
                lemma_row_insert_distinct(cv, id@, cluster@);
            }
        }
        match self.position(&id) {
            Some(i) => {
                let existing = self.clusters[i].0.clone();
                self.clusters.set(i, (existing, cluster));
                assert(clusters_view(self.clusters@) =~= cv.update(i as int, (id@, cluster@)));
            },
            None => {
                self.clusters.push((id, cluster));
                assert(clusters_view(self.clusters@) =~= cv.push((id@, cluster@)));
            },
        }
    }

    /// The identifiers of the clusters, in order.
    pub fn identifiers(&self) -> (r: Vec<String>)
        ensures
            texts_view(r@) == identifiers_view(self.clusters@),
    {
        let mut out: Vec<String> = Vec::new();
        let mut i: usize = 0;
        while i < self.clusters.len()
            invariant
                i <= self.clusters@.len(),
                texts_view(out@) == identifiers_view(self.clusters@).take(i as int),
            decreases self.clusters@.len() - i,
        {
            let id = self.clusters[i].0.clone();
            let ghost before = out@;
            out.push(id);
            assert(out@ == before.push(id));
            assert(texts_view(out@) =~= texts_view(before).push(id@));
            assert(identifiers_view(self.clusters@).take(i + 1) =~= identifiers_view(self.clusters@).take(i as int).push(self.clusters@[i as int].0@));
            assert(texts_view(out@) =~= identifiers_view(self.clusters@).take(i + 1));
            i = i + 1;
        }
        assert(identifiers_view(self.clusters@).take(self.clusters@.len() as int) =~= identifiers_view(self.clusters@));
        out
    }
}

} // verus!
