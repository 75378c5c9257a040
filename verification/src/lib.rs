//! Verified core of a Couchbase shell: the tutorial pager, the conversions
//! between JSON documents and shell values, and the decisions its commands
//! make about clusters, buckets, scopes and collections.

pub mod error;
pub mod value;
pub mod row;
pub mod decimal;
pub mod convert;
pub mod roundtrip;
pub mod state;
pub mod pattern;
pub mod args;
pub mod signature;
pub mod text;
pub mod analytics;
pub mod clusters;
pub mod buckets_get;
pub mod use_bucket;
pub mod nodes;
pub mod tutorial;
