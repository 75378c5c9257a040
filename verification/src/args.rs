//! How commands read their arguments against the shell's state: which
//! clusters a command addresses, and which bucket, scope and collection.

use vstd::prelude::*;
use crate::error::{CliError, ErrorView};
use crate::state::{RemoteCluster, State, opt_view, identifiers_view, texts_view, copy_opt};
use crate::pattern::{compile_pattern, pattern_is_match, regex_new_error, regex_is_match};
use crate::value::{JsonValue, NuValue};
use crate::convert::{convert_json_value_to_nu_value, json_to_nu};

verus! {

/// The error for a couchbase failure: a runtime error with the failure's text.
pub fn couchbase_error_to_shell_error(message: String) -> (r: CliError)
    ensures
        r == CliError::Runtime(message),
{
    CliError::Runtime(message)
}

/// The view of an outcome that is a list of texts.
pub open spec fn texts_result_view(r: Result<Vec<String>, CliError>) -> Result<Seq<Seq<char>>, ErrorView> {
    match r {
        Ok(v) => Ok(texts_view(v@)),
        Err(e) => Err(e@),
    }
}

/// The identifiers, in order, that the regex compiled from `pattern` matches.
pub open spec fn matching_identifiers(ids: Seq<Seq<char>>, pattern: Seq<char>) -> Seq<Seq<char>> {
    ids.filter(|k: Seq<char>| regex_is_match(pattern, k))
}

/// The clusters a command addresses: with `--clusters`, those whose
/// identifiers its regex matches; without it, the active cluster when the
/// command defaults to it, else those the empty regex matches; a regex that
/// does not compile is an error.
pub open spec fn cluster_identifiers_spec(
    ids: Seq<Seq<char>>,
    active: Seq<char>,
    flag: Option<Seq<char>>,
    default_active: bool,
) -> Result<Seq<Seq<char>>, ErrorView> {
    if flag is None && default_active {
        Ok(seq![active])
    } else {
        let pattern = match flag {
            Some(p) => p,
            None => Seq::empty(),
        };
        match regex_new_error(pattern) {
            Some(t) => Err(ErrorView::Runtime("Could not parse regex "@ + t)),
            None => Ok(matching_identifiers(ids, pattern)),
        }
    }
}

/// What `--clusters` selects. When the flag is given and its regex
/// compiles, exactly the identifiers that the regex matches are addressed,
/// whether or not the command defaults to the active cluster; when it does
/// not compile, the command fails naming the regex's error. Without the
/// flag, a command that defaults to the active cluster addresses it alone,
/// and one that does not addresses every cluster.
pub proof fn clusters_flag_selects_the_matches(
    ids: Seq<Seq<char>>,
    active: Seq<char>,
    pattern: Seq<char>,
    default_active: bool,
)
    ensures
        regex_new_error(pattern) is None ==> (
            cluster_identifiers_spec(ids, active, Some(pattern), default_active) matches Ok(r)
            && r.len() <= ids.len()
            && forall|k: Seq<char>| #[trigger] r.contains(k) <==> (ids.contains(k) && regex_is_match(pattern, k))
        ),
        regex_new_error(pattern) matches Some(t) ==>
            cluster_identifiers_spec(ids, active, Some(pattern), default_active) == Err::<Seq<Seq<char>>, ErrorView>(
                ErrorView::Runtime("Could not parse regex "@ + t),
            ),
        cluster_identifiers_spec(ids, active, None, true) == Ok::<Seq<Seq<char>>, ErrorView>(seq![active]),
        regex_new_error(Seq::empty()) is None && (forall|k: Seq<char>| regex_is_match(Seq::empty(), k)) ==>
            cluster_identifiers_spec(ids, active, None, false) == Ok::<Seq<Seq<char>>, ErrorView>(ids),
{
    broadcast use vstd::seq_lib::group_filter_ensures;
    let pred = |k: Seq<char>| regex_is_match(pattern, k);
    let r = ids.filter(pred);
    assert forall|k: Seq<char>| #[trigger] r.contains(k) <==> (ids.contains(k) && regex_is_match(pattern, k)) by {
        if r.contains(k) {
            ids.lemma_filter_contains_rev(pred, k);
            let i = choose|i: int| 0 <= i < r.len() && r[i] == k;
            assert(pred(r[i]));
        }
        if ids.contains(k) && regex_is_match(pattern, k) {
            let i = choose|i: int| 0 <= i < ids.len() && ids[i] == k;
            assert(pred(ids[i]));
            ids.lemma_filter_contains(pred, i);
        }
    }
    if regex_new_error(Seq::empty()) is None && (forall|k: Seq<char>| regex_is_match(Seq::empty(), k)) {
        let all = |k: Seq<char>| regex_is_match(Seq::<char>::empty(), k);
        lemma_filter_keeps_all(ids, all);
    }
}

/// Keeping the elements that all satisfy a predicate keeps the whole sequence.
proof fn lemma_filter_keeps_all(s: Seq<Seq<char>>, pred: spec_fn(Seq<char>) -> bool)
    requires
        forall|k: Seq<char>| #[trigger] pred(k),
    ensures
        s.filter(pred) == s,
    decreases s.len(),
{
    reveal_with_fuel(Seq::<_>::filter, 1);
    if s.len() > 0 {
        lemma_filter_keeps_all(s.drop_last(), pred);
        assert(pred(s.last()));
        assert(s.drop_last().push(s.last()) =~= s);
    } else {
        assert(s =~= Seq::<Seq<char>>::empty());
    }
}

/// The identifiers of the clusters a command addresses (see
/// `cluster_identifiers_spec`). Without `--clusters` and without defaulting
/// to the active cluster, that is every cluster, in order.
pub fn cluster_identifiers_from(state: &State, clusters_flag: Option<String>, default_active: bool) -> (r: Result<Vec<String>, CliError>)
    ensures
        texts_result_view(r) == cluster_identifiers_spec(
            identifiers_view(state.clusters@),
            state.active@,
            opt_view(clusters_flag),
            default_active,
        ),
        clusters_flag is None && !default_active ==> texts_result_view(r) == Ok::<Seq<Seq<char>>, ErrorView>(
            identifiers_view(state.clusters@),
        ),
{
    let identifier_arg = match clusters_flag {
        Some(arg) => arg,
        None => {
            if default_active {
                let mut only: Vec<String> = Vec::new();
                only.push(state.active.clone());
                assert(texts_view(only@) =~= seq![state.active@]);
                return Ok(only);
            }
            String::new()
        },
    };
    let re = match compile_pattern(identifier_arg.as_str()) {
        Ok(v) => v,
        Err(e) => {
            return Err(CliError::Runtime(String::from_str("Could not parse regex ").concat(e.as_str())));
        },
    };
    let ghost ids = identifiers_view(state.clusters@);
    let ghost pred = |k: Seq<char>| regex_is_match(identifier_arg@, k);
    let mut out: Vec<String> = Vec::new();
    let mut i: usize = 0;
    assert(ids.take(0) =~= Seq::<Seq<char>>::empty());
    assert(texts_view(out@) =~= Seq::<Seq<char>>::empty());
    while i < state.clusters.len()
        invariant
            i <= state.clusters@.len(),
            ids == identifiers_view(state.clusters@),
            re.source() == identifier_arg@,
            pred == (|k: Seq<char>| regex_is_match(identifier_arg@, k)),
            texts_view(out@) == ids.take(i as int).filter(pred),
            identifier_arg@.len() == 0 ==> texts_view(out@) == ids.take(i as int),
        decreases state.clusters@.len() - i,
    {
        reveal_with_fuel(Seq::<_>::filter, 1);
        let key = &state.clusters[i].0;
        assert(ids.take(i + 1).drop_last() =~= ids.take(i as int));
        assert(ids.take(i + 1).last() == key@);
        let ghost before = out@;
        if pattern_is_match(&re, key.as_str()) {
            out.push(key.clone());
            assert(texts_view(out@) =~= texts_view(before).push(key@));
        } else {
            assert(out@ == before);
        }
        assert(ids.take(i + 1) =~= ids.take(i as int).push(key@));
        i = i + 1;
    }
    assert(ids.take(state.clusters@.len() as int) =~= ids);
    Ok(out)
}

/// The error when no bucket is given and none is in use.
pub open spec fn no_bucket_error() -> ErrorView {
    ErrorView::Runtime("Could not auto-select a bucket - please use --bucket instead"@)
}

/// Without `--bucket` and without a bucket in use, a command fails asking
/// for `--bucket`.
pub proof fn missing_bucket_asks_for_the_flag()
    ensures
        no_bucket_error() == ErrorView::Runtime("Could not auto-select a bucket - please use --bucket instead"@),
{
}

/// The bucket a command works on: `--bucket` if given, else the bucket in
/// use on the cluster; with neither, an error.
pub fn bucket_name_from_args(bucket_flag: Option<String>, active: &RemoteCluster) -> (r: Result<String, CliError>)
    ensures
        match (bucket_flag, active.active_bucket) {
            (Some(b), _) => r == Ok::<String, CliError>(b),
            (None, Some(b)) => r == Ok::<String, CliError>(b),
            (None, None) => r matches Err(e) && e@ == no_bucket_error(),
        },
{
    match bucket_flag {
        Some(v) => Ok(v),
        None => match copy_opt(&active.active_bucket) {
            Some(v) => Ok(v),
            None => Err(CliError::Runtime(String::from_str("Could not auto-select a bucket - please use --bucket instead"))),
        },
    }
}

/// The bucket, scope and collection a document command works on.
#[derive(Debug, PartialEq)]
pub struct CollectionTarget {
    pub bucket: String,
    pub scope: String,
    pub collection: String,
}

/// The value given, else the one in use, else the empty text (the default).
pub open spec fn flag_or_active(flag: Option<String>, active: Option<String>) -> Seq<char> {
    match flag {
        Some(s) => s@,
        None => match active {
            Some(s) => s@,
            None => Seq::empty(),
        },
    }
}

/// A flag that is given wins over the value in use; without the flag the
/// value in use counts; with neither, the default is the empty name.
pub proof fn flag_wins_over_active(given: String, in_use: String)
    ensures
        flag_or_active(Some(given), Some(in_use)) == given@,
        flag_or_active(Some(given), None) == given@,
        flag_or_active(None, Some(in_use)) == in_use@,
        flag_or_active(None, None) == Seq::<char>::empty(),
{
}

/// The value given, else the one in use, else the empty text.
fn pick_name(flag: Option<String>, active: &Option<String>) -> (r: String)
    ensures
        r@ == flag_or_active(flag, *active),
{
    match flag {
        Some(s) => s,
        None => match active {
            Some(s) => s.clone(),
            None => String::new(),
        },
    }
}

/// The collection a document command works on: the bucket as
/// `bucket_name_from_args` picks it (failing as it does), and the scope and
/// collection each from its flag, else the one in use on the cluster, else
/// the default (empty) one.
pub fn collection_from_args(
    bucket_flag: Option<String>,
    scope_flag: Option<String>,
    collection_flag: Option<String>,
    active: &RemoteCluster,
) -> (r: Result<CollectionTarget, CliError>)
    ensures
        match (bucket_flag, active.active_bucket) {
            (None, None) => r matches Err(e) && e@ == no_bucket_error(),
            _ => r matches Ok(t) && {
                &&& t.bucket@ == flag_or_active(bucket_flag, active.active_bucket)
                &&& t.scope@ == flag_or_active(scope_flag, active.active_scope)
                &&& t.collection@ == flag_or_active(collection_flag, active.active_collection)
            },
        },
{
    let bucket = match bucket_name_from_args(bucket_flag, active) {
        Ok(b) => b,
        Err(e) => {
            return Err(e);
        },
    };
    let scope = pick_name(scope_flag, &active.active_scope);
    let collection = pick_name(collection_flag, &active.active_collection);
    Ok(CollectionTarget { bucket, scope, collection })
}

/// The shell value for one row of a query's results: the converted document,
/// or a runtime error with the text of the row's failure.
pub fn convert_couchbase_row_json_to_nu_value(row: Result<JsonValue, String>) -> (r: Result<NuValue, CliError>)
    ensures
        match row {
            Ok(j) => r matches Ok(n) && n@ == json_to_nu(j@),
            Err(m) => r == Err::<NuValue, CliError>(CliError::Runtime(m)),
        },
{
    match row {
        Ok(res) => convert_json_value_to_nu_value(&res),
        Err(e) => Err(CliError::Runtime(e)),
    }
}

} // verus!
