//! The two kinds of structured data the shell moves between: JSON documents
//! as the database hands them out, and the shell's own values.
//!
//! Each exec type has a view made of sequences, which the contracts use.
//! Floating-point payloads are carried as the bits of an IEEE-754 double.

use vstd::prelude::*;
use crate::error::{CliError, ErrorView};

verus! {

/// A JSON number as the shell reads it.
#[derive(Clone, Copy, Debug, PartialEq, Eq, Structural)]
pub enum JsonNumber {
    /// A number that is an `i64`.
    Int(i64),
    /// A whole number above `i64::MAX` that is a `u64`.
    UInt(u64),
    /// Any other number, by the bits of its `f64`.
    Float(u64),
}

/// A JSON document.
#[derive(Debug, PartialEq)]
pub enum JsonValue {
    Null,
    Bool(bool),
    Number(JsonNumber),
    Str(String),
    Array(Vec<JsonValue>),
    /// The members of an object, in order.
    Object(Vec<(String, JsonValue)>),
}

/// The view of a JSON document.
pub enum JsonView {
    Null,
    Bool(bool),
    Number(JsonNumber),
    Str(Seq<char>),
    Array(Seq<JsonView>),
    Object(Seq<(Seq<char>, JsonView)>),
}

/// The view of a JSON document.
pub open spec fn json_view(j: JsonValue) -> JsonView
    decreases j,
{
    match j {
        JsonValue::Null => JsonView::Null,
        JsonValue::Bool(b) => JsonView::Bool(b),
        JsonValue::Number(n) => JsonView::Number(n),
        JsonValue::Str(s) => JsonView::Str(s@),
        JsonValue::Array(a) => JsonView::Array(json_seq_view(a@)),
        JsonValue::Object(o) => JsonView::Object(json_entries_view(o@)),
    }
}

/// The views of a sequence of JSON documents.
pub open spec fn json_seq_view(s: Seq<JsonValue>) -> Seq<JsonView>
    decreases s,
{
    if s.len() == 0 {
        Seq::empty()
    } else {
        json_seq_view(s.drop_last()).push(json_view(s.last()))
    }
}

/// The views of the members of a JSON object.
pub open spec fn json_entries_view(s: Seq<(String, JsonValue)>) -> Seq<(Seq<char>, JsonView)>
    decreases s,
{
    if s.len() == 0 {
        Seq::empty()
    } else {
        json_entries_view(s.drop_last()).push((s.last().0@, json_view(s.last().1)))
    }
}

impl View for JsonValue {
    type V = JsonView;

    open spec fn view(&self) -> JsonView {
        json_view(*self)
    }
}

/// A whole number of the shell: an `i64`, or the decimal text of one outside
/// the range of `i64` (see `int_well_formed`).
#[derive(Debug, PartialEq)]
pub enum IntValue {
    Small(i64),
    Big(String),
}

/// The view of a whole number of the shell.
pub enum IntView {
    Small(i64),
    Big(Seq<char>),
}

impl View for IntValue {
    type V = IntView;

    open spec fn view(&self) -> IntView {
        match self {
            IntValue::Small(i) => IntView::Small(*i),
            IntValue::Big(t) => IntView::Big(t@),
        }
    }
}

/// One step of a column path.
#[derive(Debug, PartialEq)]
pub enum PathMember {
    Str(String),
    Int(IntValue),
}

/// The view of one step of a column path.
pub enum PathMemberView {
    Str(Seq<char>),
    Int(IntView),
}

impl View for PathMember {
    type V = PathMemberView;

    open spec fn view(&self) -> PathMemberView {
        match self {
            PathMember::Str(s) => PathMemberView::Str(s@),
            PathMember::Int(i) => PathMemberView::Int(i@),
        }
    }
}

/// A value of the shell.
#[derive(Debug, PartialEq)]
pub enum NuValue {
    Boolean(bool),
    /// A size in bytes.
    Filesize(u64),
    /// A duration, by its text.
    Duration(String),
    /// A date, by its text.
    Date(String),
    EndOfStream,
    BeginningOfStream,
    /// A decimal, by the bits of the `f64` it stands for.
    Decimal(u64),
    Int(IntValue),
    Nothing,
    GlobPattern(String),
    Str(String),
    ColumnPath(Vec<PathMember>),
    /// A file path, as displayed.
    FilePath(String),
    Table(Vec<NuValue>),
    Error(CliError),
    Block,
    Range,
    Binary(Vec<u8>),
    /// The columns of a row, in order.
    Row(Vec<(String, NuValue)>),
}

/// The view of a value of the shell.
pub enum NuView {
    Boolean(bool),
    Filesize(u64),
    Duration(Seq<char>),
    Date(Seq<char>),
    EndOfStream,
    BeginningOfStream,
    Decimal(u64),
    Int(IntView),
    Nothing,
    GlobPattern(Seq<char>),
    Str(Seq<char>),
    ColumnPath(Seq<PathMemberView>),
    FilePath(Seq<char>),
    Table(Seq<NuView>),
    Error(ErrorView),
    Block,
    Range,
    Binary(Seq<u8>),
    Row(Seq<(Seq<char>, NuView)>),
}

/// The view of a value of the shell.
pub open spec fn nu_view(v: NuValue) -> NuView
    decreases v,
{
    match v {
        NuValue::Boolean(b) => NuView::Boolean(b),
        NuValue::Filesize(f) => NuView::Filesize(f),
        NuValue::Duration(t) => NuView::Duration(t@),
        NuValue::Date(t) => NuView::Date(t@),
        NuValue::EndOfStream => NuView::EndOfStream,
        NuValue::BeginningOfStream => NuView::BeginningOfStream,
        NuValue::Decimal(b) => NuView::Decimal(b),
        NuValue::Int(i) => NuView::Int(i@),
        NuValue::Nothing => NuView::Nothing,
        NuValue::GlobPattern(s) => NuView::GlobPattern(s@),
        NuValue::Str(s) => NuView::Str(s@),
        NuValue::ColumnPath(p) => NuView::ColumnPath(p@.map_values(|m: PathMember| m@)),
        NuValue::FilePath(s) => NuView::FilePath(s@),
        NuValue::Table(l) => NuView::Table(nu_seq_view(l@)),
        NuValue::Error(e) => NuView::Error(e@),
        NuValue::Block => NuView::Block,
        NuValue::Range => NuView::Range,
        NuValue::Binary(b) => NuView::Binary(b@),
        NuValue::Row(o) => NuView::Row(nu_entries_view(o@)),
    }
}

/// The views of a sequence of shell values.
pub open spec fn nu_seq_view(s: Seq<NuValue>) -> Seq<NuView>
    decreases s,
{
    if s.len() == 0 {
        Seq::empty()
    } else {
        nu_seq_view(s.drop_last()).push(nu_view(s.last()))
    }
}

/// The views of the columns of a row.
pub open spec fn nu_entries_view(s: Seq<(String, NuValue)>) -> Seq<(Seq<char>, NuView)>
    decreases s,
{
    if s.len() == 0 {
        Seq::empty()
    } else {
        nu_entries_view(s.drop_last()).push((s.last().0@, nu_view(s.last().1)))
    }
}

impl View for NuValue {
    type V = NuView;

    open spec fn view(&self) -> NuView {
        nu_view(*self)
    }
}

} // verus!
