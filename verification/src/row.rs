//! Rows: ordered columns with distinct names. Inserting a column whose name
//! is already there replaces its value in place; a new name goes at the end.

use vstd::prelude::*;
use crate::decimal::f64_bits_finite;
use crate::value::{JsonNumber, JsonValue, JsonView, IntView, PathMemberView, NuValue, NuView, json_entries_view, nu_entries_view, json_seq_view, nu_seq_view};

verus! {

/// The position of the first column called `k`.
pub open spec fn key_position<V>(r: Seq<(Seq<char>, V)>, k: Seq<char>) -> Option<int>
    decreases r.len(),
{
    if r.len() == 0 {
        None
    } else {
        match key_position(r.drop_last(), k) {
            Some(i) => Some(i),
            None => if r.last().0 == k {
                Some(r.len() - 1)
            } else {
                None
            },
        }
    }
}

/// The row after inserting column `k` with value `v`.
pub open spec fn row_insert<V>(r: Seq<(Seq<char>, V)>, k: Seq<char>, v: V) -> Seq<(Seq<char>, V)> {
    match key_position(r, k) {
        Some(i) => r.update(i, (k, v)),
        None => r.push((k, v)),
    }
}

/// The views of the columns of a row.
pub open spec fn entries_of<V: View>(s: Seq<(String, V)>) -> Seq<(Seq<char>, V::V)> {
    s.map_values(|p: (String, V)| (p.0@, p.1@))
}

/// No two columns have the same name.
pub open spec fn keys_distinct<V>(r: Seq<(Seq<char>, V)>) -> bool {
    forall|i: int, j: int| 0 <= i < j < r.len() ==> r[i].0 != r[j].0
}

/// A JSON number in the one form a parser gives it: an integer that is an
/// `i64` is read as one, so `UInt` holds only numbers above `i64::MAX`, and a
/// float is finite.
pub open spec fn json_number_well_formed(n: JsonNumber) -> bool {
    match n {
        JsonNumber::Int(_) => true,
        JsonNumber::UInt(u) => u > i64::MAX,
        JsonNumber::Float(b) => f64_bits_finite(b),
    }
}

/// A well-formed JSON document, as a JSON parser builds it: each number in
/// its one form, and the members of each object with distinct names.
pub open spec fn json_well_formed(j: JsonView) -> bool
    decreases j,
{
    match j {
        JsonView::Number(n) => json_number_well_formed(n),
        JsonView::Array(a) => json_seq_well_formed(a),
        JsonView::Object(o) => keys_distinct(o) && json_members_well_formed(o),
        _ => true,
    }
}

/// Every document of the sequence is well formed.
pub open spec fn json_seq_well_formed(s: Seq<JsonView>) -> bool
    decreases s,
{
    if s.len() == 0 {
        true
    } else {
        json_seq_well_formed(s.drop_last()) && json_well_formed(s.last())
    }
}

/// Every member value is well formed.
pub open spec fn json_members_well_formed(s: Seq<(Seq<char>, JsonView)>) -> bool
    decreases s,
{
    if s.len() == 0 {
        true
    } else {
        json_members_well_formed(s.drop_last()) && json_well_formed(s.last().1)
    }
}

/// Every character of `t` is a decimal digit.
pub open spec fn all_digits(t: Seq<char>) -> bool {
    forall|i: int| 0 <= i < t.len() ==> '0' <= #[trigger] t[i] <= '9'
}

/// The number that the decimal digits `t` write.
pub open spec fn digits_value(t: Seq<char>) -> int
    decreases t.len(),
{
    if t.len() == 0 {
        0
    } else {
        digits_value(t.drop_last()) * 10 + (t.last() as int - '0' as int)
    }
}

/// Decimal digits with no leading zero.
pub open spec fn plain_digits(t: Seq<char>) -> bool {
    t.len() > 0 && all_digits(t) && t[0] != '0'
}

/// `t` is the decimal text (digits with no leading zero, after a `-` when
/// negative) of a whole number outside the range of `i64`.
pub open spec fn big_int_text(t: Seq<char>) -> bool {
    if t.len() > 0 && t[0] == '-' {
        let d = t.subrange(1, t.len() as int);
        plain_digits(d) && -digits_value(d) < i64::MIN
    } else {
        plain_digits(t) && digits_value(t) > i64::MAX
    }
}

/// A well-formed whole number: a large one holds the decimal text of a
/// number that no `i64` holds.
pub open spec fn int_well_formed(i: IntView) -> bool {
    match i {
        IntView::Small(_) => true,
        IntView::Big(t) => big_int_text(t),
    }
}

/// A well-formed step of a column path: its number, if it is one, is well formed.
pub open spec fn path_member_well_formed(m: PathMemberView) -> bool {
    match m {
        PathMemberView::Str(_) => true,
        PathMemberView::Int(i) => int_well_formed(i),
    }
}

/// A well-formed shell value: the columns of each row have distinct names,
/// as in the dictionaries the shell keeps rows in, and each large whole
/// number holds the decimal text of a number beyond `i64`.
pub open spec fn nu_well_formed(v: NuView) -> bool
    decreases v,
{
    match v {
        NuView::Int(i) => int_well_formed(i),
        NuView::ColumnPath(p) => forall|k: int| 0 <= k < p.len() ==> #[trigger] path_member_well_formed(p[k]),
        NuView::Table(l) => nu_seq_well_formed(l),
        NuView::Row(o) => keys_distinct(o) && nu_columns_well_formed(o),
        _ => true,
    }
}

/// Every value of the sequence is well formed.
pub open spec fn nu_seq_well_formed(s: Seq<NuView>) -> bool
    decreases s,
{
    if s.len() == 0 {
        true
    } else {
        nu_seq_well_formed(s.drop_last()) && nu_well_formed(s.last())
    }
}

/// Every column value is well formed.
pub open spec fn nu_columns_well_formed(s: Seq<(Seq<char>, NuView)>) -> bool
    decreases s,
{
    if s.len() == 0 {
        true
    } else {
        nu_columns_well_formed(s.drop_last()) && nu_well_formed(s.last().1)
    }
}

/// A sequence of documents is well formed exactly when each of them is.
pub proof fn lemma_json_seq_well_formed(s: Seq<JsonView>)
    ensures
        json_seq_well_formed(s) <==> forall|i: int| 0 <= i < s.len() ==> #[trigger] json_well_formed(s[i]),
    decreases s.len(),
{
    if s.len() > 0 {
        let p = s.drop_last();
        lemma_json_seq_well_formed(p);
        if json_seq_well_formed(s) {
            assert forall|i: int| 0 <= i < s.len() implies #[trigger] json_well_formed(s[i]) by {
                if i < s.len() - 1 {
                    assert(p[i] == s[i]);
                }
            }
        }
        if forall|i: int| 0 <= i < s.len() ==> #[trigger] json_well_formed(s[i]) {
            assert forall|i: int| 0 <= i < p.len() implies #[trigger] json_well_formed(p[i]) by {
                assert(p[i] == s[i]);
            }
            assert(json_well_formed(s[s.len() - 1]));
        }
    }
}

/// The members of an object are well formed exactly when each value is.
pub proof fn lemma_json_members_well_formed(s: Seq<(Seq<char>, JsonView)>)
    ensures
        json_members_well_formed(s) <==> forall|i: int| 0 <= i < s.len() ==> #[trigger] json_well_formed(s[i].1),
    decreases s.len(),
{
    if s.len() > 0 {
        let p = s.drop_last();
        lemma_json_members_well_formed(p);
        if json_members_well_formed(s) {
            assert forall|i: int| 0 <= i < s.len() implies #[trigger] json_well_formed(s[i].1) by {
                if i < s.len() - 1 {
                    assert(p[i] == s[i]);
                }
            }
        }
        if forall|i: int| 0 <= i < s.len() ==> #[trigger] json_well_formed(s[i].1) {
            assert forall|i: int| 0 <= i < p.len() implies #[trigger] json_well_formed(p[i].1) by {
                assert(p[i] == s[i]);
            }
            assert(json_well_formed(s[s.len() - 1].1));
        }
    }
}

/// A sequence of shell values is well formed exactly when each of them is.
pub proof fn lemma_nu_seq_well_formed(s: Seq<NuView>)
    ensures
        nu_seq_well_formed(s) <==> forall|i: int| 0 <= i < s.len() ==> #[trigger] nu_well_formed(s[i]),
    decreases s.len(),
{
    if s.len() > 0 {
        let p = s.drop_last();
        lemma_nu_seq_well_formed(p);
        if nu_seq_well_formed(s) {
            assert forall|i: int| 0 <= i < s.len() implies #[trigger] nu_well_formed(s[i]) by {
                if i < s.len() - 1 {
                    assert(p[i] == s[i]);
                }
            }
        }
        if forall|i: int| 0 <= i < s.len() ==> #[trigger] nu_well_formed(s[i]) {
            assert forall|i: int| 0 <= i < p.len() implies #[trigger] nu_well_formed(p[i]) by {
                assert(p[i] == s[i]);
            }
            assert(nu_well_formed(s[s.len() - 1]));
        }
    }
}

/// The columns of a row are well formed exactly when each value is.
pub proof fn lemma_nu_columns_well_formed(s: Seq<(Seq<char>, NuView)>)
    ensures
        nu_columns_well_formed(s) <==> forall|i: int| 0 <= i < s.len() ==> #[trigger] nu_well_formed(s[i].1),
    decreases s.len(),
{
    if s.len() > 0 {
        let p = s.drop_last();
        lemma_nu_columns_well_formed(p);
        if nu_columns_well_formed(s) {
            assert forall|i: int| 0 <= i < s.len() implies #[trigger] nu_well_formed(s[i].1) by {
                if i < s.len() - 1 {
                    assert(p[i] == s[i]);
                }
            }
        }
        if forall|i: int| 0 <= i < s.len() ==> #[trigger] nu_well_formed(s[i].1) {
            assert forall|i: int| 0 <= i < p.len() implies #[trigger] nu_well_formed(p[i].1) by {
                assert(p[i] == s[i]);
            }
            assert(nu_well_formed(s[s.len() - 1].1));
        }
    }
}

/// Keeping only some columns of a row whose names are distinct keeps them distinct.
pub proof fn lemma_filter_keys_distinct<V>(s: Seq<(Seq<char>, V)>, pred: spec_fn((Seq<char>, V)) -> bool)
    requires
        keys_distinct(s),
    ensures
        keys_distinct(s.filter(pred)),
    decreases s.len(),
{
    reveal_with_fuel(Seq::<_>::filter, 1);
    if s.len() > 0 {
        let p = s.drop_last();
        assert(keys_distinct(p));
        lemma_filter_keys_distinct(p, pred);
        if pred(s.last()) {
            let f = p.filter(pred);
            assert forall|i: int| 0 <= i < f.len() implies f[i].0 != s.last().0 by {
                p.lemma_filter_contains_rev(pred, f[i]);
                let k = choose|k: int| 0 <= k < p.len() && p[k] == f[i];
                assert(s[k] == p[k]);
            }
            assert(s.filter(pred) == f.push(s.last()));
        }
    }
}

/// The value of the column called `name` of a row: that of the first column
/// with that name; `None` when there is none, or when `r` is no row.
pub open spec fn column(r: NuView, name: Seq<char>) -> Option<NuView> {
    match r {
        NuView::Row(c) => match key_position(c, name) {
            Some(i) => Some(c[i].1),
            None => None,
        },
        _ => None,
    }
}

/// In a row whose names are distinct, the column called `c[j].0` is `c[j]`.
pub proof fn lemma_column_of_distinct(c: Seq<(Seq<char>, NuView)>, j: int)
    requires
        keys_distinct(c),
        0 <= j < c.len(),
    ensures
        column(NuView::Row(c), c[j].0) == Some(c[j].1),
{
    lemma_key_position(c, c[j].0);
}

/// What `key_position` is: the first column with that name.
pub proof fn lemma_key_position<V>(r: Seq<(Seq<char>, V)>, k: Seq<char>)
    ensures
        match key_position(r, k) {
            Some(i) => 0 <= i < r.len() && r[i].0 == k && forall|j: int| 0 <= j < i ==> r[j].0 != k,
            None => forall|j: int| 0 <= j < r.len() ==> r[j].0 != k,
        },
    decreases r.len(),
{
    if r.len() > 0 {
        lemma_key_position(r.drop_last(), k);
        assert forall|j: int| 0 <= j < r.len() - 1 implies r.drop_last()[j] == r[j] by {}
    }
}

/// Inserting into a row whose names are distinct keeps them distinct.
pub proof fn lemma_row_insert_distinct<V>(r: Seq<(Seq<char>, V)>, k: Seq<char>, v: V)
    requires
        keys_distinct(r),
    ensures
        keys_distinct(row_insert(r, k, v)),
{
    lemma_key_position(r, k);
}

/// Inserts column `key` with `value` into `row`.
pub fn insert_entry<V: View>(row: &mut Vec<(String, V)>, key: String, value: V)
    ensures
        entries_of(final(row)@) == row_insert(entries_of(old(row)@), key@, value@),
{
    let ghost r = entries_of(row@);
    proof {
        lemma_key_position(r, key@);
    }
    let mut i: usize = 0;
    while i < row.len()
        invariant
            i <= row@.len(),
            row@ == old(row)@,
            r == entries_of(row@),
            forall|j: int| 0 <= j < i ==> r[j].0 != key@,
            match key_position(r, key@) {
                Some(p) => 0 <= p < r.len() && r[p].0 == key@ && forall|j: int| 0 <= j < p ==> r[j].0 != key@,
                None => forall|j: int| 0 <= j < r.len() ==> r[j].0 != key@,
            },
        decreases row@.len() - i,
    {
        if row[i].0 == key {
            assert(r[i as int].0 == key@);
            assert(key_position(r, key@) == Some(i as int));
            row.set(i, (key, value));
            assert(entries_of(row@) =~= r.update(i as int, (key@, value@)));
            return;
        }
        i = i + 1;
    }
    assert(key_position(r, key@) is None);
    row.push((key, value));
    assert(entries_of(row@) =~= r.push((key@, value@)));
}

/// The views of a sequence of JSON documents, element by element.
pub proof fn lemma_json_seq_view(s: Seq<JsonValue>)
    ensures
        json_seq_view(s) == s.map_values(|x: JsonValue| x@),
    decreases s.len(),
{
    if s.len() > 0 {
        lemma_json_seq_view(s.drop_last());
    }
    assert(json_seq_view(s) =~= s.map_values(|x: JsonValue| x@));
}

/// The views of the members of a JSON object, member by member.
pub proof fn lemma_json_entries_view(s: Seq<(String, JsonValue)>)
    ensures
        json_entries_view(s) == entries_of(s),
    decreases s.len(),
{
    if s.len() > 0 {
        lemma_json_entries_view(s.drop_last());
    }
    assert(json_entries_view(s) =~= entries_of(s));
}

/// The views of a sequence of shell values, element by element.
pub proof fn lemma_nu_seq_view(s: Seq<NuValue>)
    ensures
        nu_seq_view(s) == s.map_values(|x: NuValue| x@),
    decreases s.len(),
{
    if s.len() > 0 {
        lemma_nu_seq_view(s.drop_last());
    }
    assert(nu_seq_view(s) =~= s.map_values(|x: NuValue| x@));
}

/// The views of the columns of a row of shell values, column by column.
pub proof fn lemma_nu_entries_view(s: Seq<(String, NuValue)>)
    ensures
        nu_entries_view(s) == entries_of(s),
    decreases s.len(),
{
    if s.len() > 0 {
        lemma_nu_entries_view(s.drop_last());
    }
    assert(nu_entries_view(s) =~= entries_of(s));
}

} // verus!
