//! The law that relates the two conversions: a well-formed JSON document
//! (object member names distinct) whose numbers the trip keeps (`i64`s, and
//! `f64`s that an `f32` holds exactly) comes back unchanged from a trip
//! through the shell's values.

use vstd::prelude::*;
use crate::value::{JsonNumber, JsonView};
use crate::row::{key_position, keys_distinct, lemma_key_position, json_well_formed, json_seq_well_formed, json_members_well_formed};
use crate::convert::{
    json_to_nu, json_seq_to_nu, json_members_to_nu, nu_to_json, nu_seq_to_json,
    nu_columns_to_json,
};
use crate::error::ErrorView;
use crate::decimal::f32_exact;

verus! {

/// A JSON number that a trip through the shell keeps: an `i64`, or an `f64`
/// that an `f32` holds exactly.
pub open spec fn json_number_kept(n: JsonNumber) -> bool {
    match n {
        JsonNumber::Int(_) => true,
        JsonNumber::UInt(_) => false,
        JsonNumber::Float(b) => f32_exact(b),
    }
}

/// A JSON document all of whose numbers a trip through the shell keeps.
pub open spec fn json_numbers_kept(j: JsonView) -> bool
    decreases j,
{
    match j {
        JsonView::Number(n) => json_number_kept(n),
        JsonView::Array(a) => json_seq_numbers_kept(a),
        JsonView::Object(o) => json_members_numbers_kept(o),
        _ => true,
    }
}

/// Every document of the sequence keeps its numbers.
pub open spec fn json_seq_numbers_kept(s: Seq<JsonView>) -> bool
    decreases s,
{
    if s.len() == 0 {
        true
    } else {
        json_seq_numbers_kept(s.drop_last()) && json_numbers_kept(s.last())
    }
}

/// Every member value keeps its numbers.
pub open spec fn json_members_numbers_kept(s: Seq<(Seq<char>, JsonView)>) -> bool
    decreases s,
{
    if s.len() == 0 {
        true
    } else {
        json_members_numbers_kept(s.drop_last()) && json_numbers_kept(s.last().1)
    }
}

/// The members with their values converted, in the same order.
pub open spec fn members_converted(s: Seq<(Seq<char>, JsonView)>) -> Seq<(Seq<char>, crate::value::NuView)> {
    s.map_values(|p: (Seq<char>, JsonView)| (p.0, json_to_nu(p.1)))
}

/// With distinct member names, converting an object's members converts each in place.
pub(crate) proof fn lemma_members_distinct(s: Seq<(Seq<char>, JsonView)>)
    requires
        keys_distinct(s),
    ensures
        json_members_to_nu(s) == members_converted(s),
    decreases s.len(),
{
    if s.len() > 0 {
        let p = s.drop_last();
        assert(keys_distinct(p));
        lemma_members_distinct(p);
        let m = members_converted(p);
        lemma_key_position(m, s.last().0);
        assert forall|j: int| 0 <= j < m.len() implies m[j].0 != s.last().0 by {
            assert(m[j].0 == s[j].0);
        }
        assert(key_position(m, s.last().0) is None);
        assert(members_converted(s) =~= m.push((s.last().0, json_to_nu(s.last().1))));
    }
}

/// A well-formed document whose numbers the trip keeps comes back unchanged
/// from a trip through the shell's values.
pub proof fn json_round_trip(j: JsonView)
    requires
        json_well_formed(j),
        json_numbers_kept(j),
    ensures
        nu_to_json(json_to_nu(j)) == Ok::<JsonView, ErrorView>(j),
    decreases j,
{
    match j {
        JsonView::Array(a) => {
            json_seq_round_trip(a);
        },
        JsonView::Object(o) => {
            lemma_members_distinct(o);
            json_members_round_trip(o);
        },
        _ => {},
    }
}

/// Well-formed documents whose numbers the trip keeps come back unchanged,
/// in order, from a trip through the shell's values.
pub proof fn json_seq_round_trip(s: Seq<JsonView>)
    requires
        json_seq_well_formed(s),
        json_seq_numbers_kept(s),
    ensures
        nu_seq_to_json(json_seq_to_nu(s)) == Ok::<Seq<JsonView>, ErrorView>(s),
    decreases s,
{
    if s.len() > 0 {
        json_seq_round_trip(s.drop_last());
        json_round_trip(s.last());
        let t = json_seq_to_nu(s);
        assert(t.drop_last() =~= json_seq_to_nu(s.drop_last()));
        assert(t.last() == json_to_nu(s.last()));
        assert(nu_seq_to_json(t) == Ok::<Seq<JsonView>, ErrorView>(s.drop_last().push(s.last())));
        assert(s.drop_last().push(s.last()) =~= s);
    } else {
        assert(s =~= Seq::<JsonView>::empty());
    }
}

/// Members with distinct names, well-formed values and numbers the trip
/// keeps come back unchanged from a trip through the columns of a row.
pub proof fn json_members_round_trip(s: Seq<(Seq<char>, JsonView)>)
    requires
        keys_distinct(s),
        json_members_well_formed(s),
        json_members_numbers_kept(s),
    ensures
        nu_columns_to_json(members_converted(s)) == Ok::<Seq<(Seq<char>, JsonView)>, ErrorView>(s),
    decreases s,
{
    if s.len() > 0 {
        let p = s.drop_last();
        assert(keys_distinct(p));
        json_members_round_trip(p);
        json_round_trip(s.last().1);
        let m = members_converted(s);
        assert(m.drop_last() =~= members_converted(p));
        lemma_key_position(p, s.last().0);
        assert forall|j: int| 0 <= j < p.len() implies p[j].0 != s.last().0 by {
            assert(p[j] == s[j]);
        }
        assert(key_position(p, s.last().0) is None);
        assert(m.last() == (s.last().0, json_to_nu(s.last().1)));
        assert(p.push((s.last().0, s.last().1)) =~= s);
        assert(nu_columns_to_json(m) == Ok::<Seq<(Seq<char>, JsonView)>, ErrorView>(p.push((s.last().0, s.last().1))));
    } else {
        assert(s =~= Seq::<(Seq<char>, JsonView)>::empty());
        assert(members_converted(s) =~= Seq::<(Seq<char>, crate::value::NuView)>::empty());
    }
}

/// Converting a JSON object gives a row whose column names are distinct,
/// whatever member names the object repeats.
pub proof fn json_object_gives_distinct_columns(s: Seq<(Seq<char>, JsonView)>)
    ensures
        keys_distinct(json_members_to_nu(s)),
    decreases s.len(),
{
    if s.len() > 0 {
        json_object_gives_distinct_columns(s.drop_last());
        crate::row::lemma_row_insert_distinct(json_members_to_nu(s.drop_last()), s.last().0, json_to_nu(s.last().1));
    }
}

/// Converting a row gives, when it succeeds, a JSON object whose member
/// names are distinct, whatever column names the row repeats.
pub proof fn row_gives_distinct_members(s: Seq<(Seq<char>, crate::value::NuView)>)
    ensures
        nu_columns_to_json(s) matches Ok(m) ==> keys_distinct(m),
    decreases s.len(),
{
    if s.len() > 0 {
        row_gives_distinct_members(s.drop_last());
        if let Ok(p) = nu_columns_to_json(s.drop_last()) {
            if let Ok(x) = nu_to_json(s.last().1) {
                crate::row::lemma_row_insert_distinct(p, s.last().0, x);
            }
        }
    }
}

} // verus!
