//! The `analytics` command: runs an analytics statement against the cluster,
//! or against a scope of a bucket when one is named.

use vstd::prelude::*;
use std::sync::Arc;
use crate::error::CliError;
use crate::state::{RemoteCluster, State};
use crate::signature::{CommandSignature, SignatureView, SyntaxShape};
use crate::args::no_bucket_error;

verus! {

/// The `analytics` command.
pub struct Analytics {
    state: Arc<State>,
}

/// The arguments `analytics` declares.
pub open spec fn analytics_signature() -> SignatureView {
    SignatureView {
        name: "analytics"@,
        required: seq![("statement"@, SyntaxShape::String, "the analytics statement"@)],
        named: seq![
            ("bucket"@, SyntaxShape::String, "the bucket to query against"@, None),
            ("scope"@, SyntaxShape::String, "the scope to query against"@, None),
        ],
    }
}

impl Analytics {
    /// The state the command reads.
    pub closed spec fn shared_state(&self) -> Arc<State> {
        self.state
    }

    /// The command, reading `state`.
    pub fn new(state: Arc<State>) -> (r: Self)
        ensures
            r.shared_state() == state,
    {
        Self { state }
    }

    /// The state the command reads.
    pub fn state(&self) -> (r: &Arc<State>)
        ensures
            *r == self.shared_state(),
    {
        &self.state
    }

    pub fn name(&self) -> (r: &'static str)
        ensures
            r@ == "analytics"@,
    {
        "analytics"
    }

    pub fn signature(&self) -> (r: CommandSignature)
        ensures
            r@ == analytics_signature(),
    {
        let r = CommandSignature::build("analytics")
            .required("statement", SyntaxShape::String, "the analytics statement")
            .named("bucket", SyntaxShape::String, "the bucket to query against", None)
            .named("scope", SyntaxShape::String, "the scope to query against", None);
        assert(r@.required =~= analytics_signature().required);
        assert(r@.named =~= analytics_signature().named);
        r
    }

    pub fn usage(&self) -> (r: &'static str)
        ensures
            r@ == "Performs an analytics query"@,
    {
        "Performs an analytics query"
    }
}

/// Where an analytics statement runs.
#[derive(Debug, PartialEq)]
pub enum AnalyticsTarget {
    /// On the cluster as a whole.
    Cluster,
    /// In a scope of a bucket.
    Scope { bucket: String, scope: String },
}

/// Where `analytics` runs its statement: with `--scope`, in that scope of
/// the bucket given by `--bucket` or else in use on the cluster (an error
/// when there is neither); without `--scope`, on the cluster.
pub fn analytics_target(
    bucket_flag: Option<String>,
    scope_flag: Option<String>,
    active: &RemoteCluster,
) -> (r: Result<AnalyticsTarget, CliError>)
    ensures
        match scope_flag {
            None => r matches Ok(AnalyticsTarget::Cluster),
            Some(s) => match (bucket_flag, active.active_bucket) {
                (Some(b), _) => r matches Ok(AnalyticsTarget::Scope { bucket, scope }) && bucket == b && scope == s,
                (None, Some(b)) => r matches Ok(AnalyticsTarget::Scope { bucket, scope }) && bucket == b && scope == s,
                (None, None) => r matches Err(e) && e@ == no_bucket_error(),
            },
        },
{
    let bucket = match bucket_flag {
        Some(v) => Some(v),
        None => crate::state::copy_opt(&active.active_bucket),
    };
    match scope_flag {
        Some(s) => match bucket {
            Some(b) => Ok(AnalyticsTarget::Scope { bucket: b, scope: s }),
            None => match crate::state::copy_opt(&active.active_bucket) {
                Some(b) => Ok(AnalyticsTarget::Scope { bucket: b, scope: s }),
                None => Err(
                    CliError::Runtime(String::from_str("Could not auto-select a bucket - please use --bucket instead")),
                ),
            },
        },
        None => Ok(AnalyticsTarget::Cluster),
    }
}

} // verus!
