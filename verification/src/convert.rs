//! Conversion of JSON documents into shell values and back.
//!
//! JSON to shell: `null` becomes nothing, numbers that are `i64`s become
//! whole numbers and other numbers decimals, arrays become tables and
//! objects rows. Shell to JSON: sizes and whole numbers become numbers,
//! texts of all kinds become strings, stream markers, blocks and ranges
//! become `null`, decimals numbers at `f32` precision, binary data an array
//! of numbers, tables arrays and rows objects; a whole number beyond `i64`,
//! a decimal beyond the range of `f32`, or an error value makes the
//! conversion fail, with the first failure found in document order.

use vstd::prelude::*;
use vstd::arithmetic::power2::{pow2, lemma2_to64};
use crate::error::{CliError, ErrorView};
use crate::value::{JsonNumber, JsonValue, JsonView, IntValue, IntView, PathMemberView, NuValue, NuView, nu_entries_view};
use crate::decimal::{f64_bits_equal_whole, SIGN_BIT, EXPONENT_STEP, f32_exact, fits_f32, f32_rounded_bits, f64_bits_finite, f32_rounded_is_finite, fits_in_f32, to_f32_precision};
use crate::row::{row_insert, column, keys_distinct, lemma_column_of_distinct, lemma_key_position, json_well_formed, nu_well_formed, lemma_json_seq_well_formed, lemma_json_members_well_formed, lemma_nu_seq_well_formed, lemma_nu_columns_well_formed, entries_of, insert_entry, lemma_json_seq_view, lemma_json_entries_view, lemma_nu_seq_view, lemma_nu_entries_view};

verus! {

/// The bits of the `f64` equal to a whole number `x` with `2^e <= x < 2^(e+1)`,
/// `e <= 52`, where `pe` is `2^e` and `scale` is `2^(52 - e)`: the biased
/// exponent `1023 + e` above the 52 fraction bits, which hold `x - 2^e` shifted
/// up to the top of the fraction.
pub open spec fn exact_f64_bits(x: int, e: int, pe: int, scale: int) -> int {
    (1023 + e) * 0x10000000000000 + (x - pe) * scale
}

/// The bits of the `f64` equal to the byte `x`.
pub open spec fn byte_f64_bits(x: int) -> int {
    if x >= 128 {
        exact_f64_bits(x, 7, 128, 0x200000000000)
    } else if x >= 64 {
        exact_f64_bits(x, 6, 64, 0x400000000000)
    } else if x >= 32 {
        exact_f64_bits(x, 5, 32, 0x800000000000)
    } else if x >= 16 {
        exact_f64_bits(x, 4, 16, 0x1000000000000)
    } else if x >= 8 {
        exact_f64_bits(x, 3, 8, 0x2000000000000)
    } else if x >= 4 {
        exact_f64_bits(x, 2, 4, 0x4000000000000)
    } else if x >= 2 {
        exact_f64_bits(x, 1, 2, 0x8000000000000)
    } else if x == 1 {
        exact_f64_bits(x, 0, 1, 0x10000000000000)
    } else {
        0
    }
}

/// The bits of the `f64` nearest to `u`, ties to even, for `2^63 <= u < 2^64`:
/// the 53 leading bits of `u` (`u / 2^11`), rounded on the 11 bits below them,
/// with biased exponent `1023 + 63`, or `2^64` itself when rounding carries out.
pub open spec fn large_u64_f64_bits(u: int) -> int {
    let q: int = u / 2048;
    let r: int = u % 2048;
    let m: int = if r > 1024 || (r == 1024 && q % 2 == 1) {
        q + 1
    } else {
        q
    };
    if m == 0x20000000000000 {
        (1023 + 64) * 0x10000000000000int
    } else {
        (1023 + 63) * 0x10000000000000 + (m - 0x10000000000000)
    }
}

/// The JSON number for a `u64`.
pub open spec fn json_number_from_u64(u: u64) -> JsonNumber {
    if u <= i64::MAX {
        JsonNumber::Int(u as i64)
    } else {
        JsonNumber::UInt(u)
    }
}

/// The shell value for a JSON number: a whole number when it is an `i64`,
/// else a decimal with its `f64`.
pub open spec fn json_number_to_nu(n: JsonNumber) -> NuView {
    match n {
        JsonNumber::Int(i) => NuView::Int(IntView::Small(i)),
        JsonNumber::UInt(u) => if u <= i64::MAX {
            NuView::Int(IntView::Small(u as i64))
        } else {
            NuView::Decimal(large_u64_f64_bits(u as int) as u64)
        },
        JsonNumber::Float(b) => NuView::Decimal(b),
    }
}

/// The shell value for a JSON document.
pub open spec fn json_to_nu(j: JsonView) -> NuView
    decreases j,
{
    match j {
        JsonView::Null => NuView::Nothing,
        JsonView::Bool(b) => NuView::Boolean(b),
        JsonView::Number(n) => json_number_to_nu(n),
        JsonView::Str(s) => NuView::Str(s),
        JsonView::Array(a) => NuView::Table(json_seq_to_nu(a)),
        JsonView::Object(o) => NuView::Row(json_members_to_nu(o)),
    }
}

/// The shell values for a sequence of JSON documents.
pub open spec fn json_seq_to_nu(s: Seq<JsonView>) -> Seq<NuView>
    decreases s,
{
    if s.len() == 0 {
        Seq::empty()
    } else {
        json_seq_to_nu(s.drop_last()).push(json_to_nu(s.last()))
    }
}

/// The row for the members of a JSON object: each member inserted in turn.
pub open spec fn json_members_to_nu(s: Seq<(Seq<char>, JsonView)>) -> Seq<(Seq<char>, NuView)>
    decreases s,
{
    if s.len() == 0 {
        Seq::empty()
    } else {
        row_insert(json_members_to_nu(s.drop_last()), s.last().0, json_to_nu(s.last().1))
    }
}

/// The error for a whole number that is not an `i64`.
pub open spec fn number_error(text: Seq<char>) -> ErrorView {
    ErrorView::Runtime("Could not get value as number "@ + text)
}

/// The error for a decimal that does not fit in an `f32`.
pub open spec fn decimal_error() -> ErrorView {
    ErrorView::Labeled("Could not convert value to decimal number"@, "could not convert to decimal"@)
}

/// The JSON number for a whole number of the shell.
pub open spec fn int_to_json(i: IntView) -> Result<JsonNumber, ErrorView> {
    match i {
        IntView::Small(n) => Ok(JsonNumber::Int(n)),
        IntView::Big(t) => Err(number_error(t)),
    }
}

/// The JSON numbers for the bytes of binary data.
pub open spec fn bytes_to_json(b: Seq<u8>) -> Seq<JsonView> {
    b.map_values(|x: u8| JsonView::Number(JsonNumber::Float(byte_f64_bits(x as int) as u64)))
}

/// The JSON array for a column path: its steps in order, up to the first failure.
pub open spec fn path_to_json(p: Seq<PathMemberView>) -> Result<Seq<JsonView>, ErrorView>
    decreases p.len(),
{
    if p.len() == 0 {
        Ok(Seq::empty())
    } else {
        match path_to_json(p.drop_last()) {
            Err(e) => Err(e),
            Ok(s) => match p.last() {
                PathMemberView::Str(t) => Ok(s.push(JsonView::Str(t))),
                PathMemberView::Int(i) => match int_to_json(i) {
                    Ok(n) => Ok(s.push(JsonView::Number(n))),
                    Err(e) => Err(e),
                },
            },
        }
    }
}

/// The JSON document for a shell value.
pub open spec fn nu_to_json(v: NuView) -> Result<JsonView, ErrorView>
    decreases v,
{
    match v {
        NuView::Boolean(b) => Ok(JsonView::Bool(b)),
        NuView::Filesize(f) => Ok(JsonView::Number(json_number_from_u64(f))),
        NuView::Duration(t) => Ok(JsonView::Str(t)),
        NuView::Date(t) => Ok(JsonView::Str(t)),
        NuView::EndOfStream => Ok(JsonView::Null),
        NuView::BeginningOfStream => Ok(JsonView::Null),
        NuView::Decimal(b) => if fits_f32(b) {
            Ok(JsonView::Number(JsonNumber::Float(f32_rounded_bits(b) as u64)))
        } else {
            Err(decimal_error())
        },
        NuView::Int(i) => match int_to_json(i) {
            Ok(n) => Ok(JsonView::Number(n)),
            Err(e) => Err(e),
        },
        NuView::Nothing => Ok(JsonView::Null),
        NuView::GlobPattern(s) => Ok(JsonView::Str(s)),
        NuView::Str(s) => Ok(JsonView::Str(s)),
        NuView::ColumnPath(p) => match path_to_json(p) {
            Ok(s) => Ok(JsonView::Array(s)),
            Err(e) => Err(e),
        },
        NuView::FilePath(s) => Ok(JsonView::Str(s)),
        NuView::Table(l) => match nu_seq_to_json(l) {
            Ok(s) => Ok(JsonView::Array(s)),
            Err(e) => Err(e),
        },
        NuView::Error(e) => Err(e),
        NuView::Block => Ok(JsonView::Null),
        NuView::Range => Ok(JsonView::Null),
        NuView::Binary(b) => Ok(JsonView::Array(bytes_to_json(b))),
        NuView::Row(o) => match nu_columns_to_json(o) {
            Ok(m) => Ok(JsonView::Object(m)),
            Err(e) => Err(e),
        },
    }
}

/// The JSON documents for a sequence of shell values, up to the first failure.
pub open spec fn nu_seq_to_json(s: Seq<NuView>) -> Result<Seq<JsonView>, ErrorView>
    decreases s,
{
    if s.len() == 0 {
        Ok(Seq::empty())
    } else {
        match nu_seq_to_json(s.drop_last()) {
            Err(e) => Err(e),
            Ok(p) => match nu_to_json(s.last()) {
                Ok(x) => Ok(p.push(x)),
                Err(e) => Err(e),
            },
        }
    }
}

/// The members of the JSON object for the columns of a row, each inserted in
/// turn, up to the first failure.
pub open spec fn nu_columns_to_json(s: Seq<(Seq<char>, NuView)>) -> Result<Seq<(Seq<char>, JsonView)>, ErrorView>
    decreases s,
{
    if s.len() == 0 {
        Ok(Seq::empty())
    } else {
        match nu_columns_to_json(s.drop_last()) {
            Err(e) => Err(e),
            Ok(p) => match nu_to_json(s.last().1) {
                Ok(x) => Ok(row_insert(p, s.last().0, x)),
                Err(e) => Err(e),
            },
        }
    }
}

/// Inserting a column keeps every value of a row well formed when the
/// inserted one is.
proof fn lemma_row_insert_values_well_formed(r: Seq<(Seq<char>, NuView)>, k: Seq<char>, v: NuView)
    requires
        forall|i: int| 0 <= i < r.len() ==> #[trigger] nu_well_formed(r[i].1),
        nu_well_formed(v),
    ensures
        forall|i: int| 0 <= i < row_insert(r, k, v).len() ==> #[trigger] nu_well_formed(row_insert(r, k, v)[i].1),
{
    lemma_key_position(r, k);
    let n = row_insert(r, k, v);
    assert forall|i: int| 0 <= i < n.len() implies #[trigger] nu_well_formed(n[i].1) by {
        if i < r.len() && n[i] != (k, v) {
            assert(n[i] == r[i]);
        }
    }
}

/// Inserting a member keeps every value of an object well formed when the
/// inserted one is.
proof fn lemma_member_insert_values_well_formed(r: Seq<(Seq<char>, JsonView)>, k: Seq<char>, v: JsonView)
    requires
        forall|i: int| 0 <= i < r.len() ==> #[trigger] json_well_formed(r[i].1),
        json_well_formed(v),
    ensures
        forall|i: int| 0 <= i < row_insert(r, k, v).len() ==> #[trigger] json_well_formed(row_insert(r, k, v)[i].1),
{
    lemma_key_position(r, k);
    let n = row_insert(r, k, v);
    assert forall|i: int| 0 <= i < n.len() implies #[trigger] json_well_formed(n[i].1) by {
        if i < r.len() && n[i] != (k, v) {
            assert(n[i] == r[i]);
        }
    }
}

/// Converting documents one by one gives, in order, the shell value of each.
proof fn lemma_json_seq_to_nu_elements(s: Seq<JsonView>)
    ensures
        json_seq_to_nu(s).len() == s.len(),
        forall|i: int| 0 <= i < s.len() ==> #[trigger] json_seq_to_nu(s)[i] == json_to_nu(s[i]),
    decreases s.len(),
{
    if s.len() > 0 {
        lemma_json_seq_to_nu_elements(s.drop_last());
        assert forall|i: int| 0 <= i < s.len() implies #[trigger] json_seq_to_nu(s)[i] == json_to_nu(s[i]) by {
            if i < s.len() - 1 {
                assert(s.drop_last()[i] == s[i]);
            }
        }
    }
}

/// Every column of the row for an object's members is well formed when the
/// shell value of every member is.
proof fn lemma_members_to_nu_values_well_formed(s: Seq<(Seq<char>, JsonView)>)
    requires
        forall|i: int| 0 <= i < s.len() ==> #[trigger] nu_well_formed(json_to_nu(s[i].1)),
    ensures
        forall|i: int| 0 <= i < json_members_to_nu(s).len() ==> #[trigger] nu_well_formed(json_members_to_nu(s)[i].1),
    decreases s.len(),
{
    if s.len() > 0 {
        let p = s.drop_last();
        assert forall|i: int| 0 <= i < p.len() implies #[trigger] nu_well_formed(json_to_nu(p[i].1)) by {
            assert(p[i] == s[i]);
        }
        lemma_members_to_nu_values_well_formed(p);
        assert(nu_well_formed(json_to_nu(s[s.len() - 1].1)));
        lemma_row_insert_values_well_formed(json_members_to_nu(p), s.last().0, json_to_nu(s.last().1));
    }
}

/// The shell value of any JSON document is well formed: the columns of
/// every row have distinct names, whatever names the document repeats.
pub proof fn json_to_nu_well_formed(j: JsonView)
    ensures
        nu_well_formed(json_to_nu(j)),
    decreases j,
{
    match j {
        JsonView::Array(a) => {
            lemma_json_seq_to_nu_elements(a);
            let l = json_seq_to_nu(a);
            assert forall|i: int| 0 <= i < l.len() implies #[trigger] nu_well_formed(l[i]) by {
                assert(decreases_to!(j => a[i]));
                json_to_nu_well_formed(a[i]);
            }
            lemma_nu_seq_well_formed(l);
        },
        JsonView::Object(o) => {
            crate::roundtrip::json_object_gives_distinct_columns(o);
            assert forall|i: int| 0 <= i < o.len() implies #[trigger] nu_well_formed(json_to_nu(o[i].1)) by {
                assert(decreases_to!(j => o[i].1));
                json_to_nu_well_formed(o[i].1);
            }
            lemma_members_to_nu_values_well_formed(o);
            lemma_nu_columns_well_formed(json_members_to_nu(o));
        },
        _ => {},
    }
}

/// The `f64` equal to a byte is finite.
proof fn lemma_byte_bits_finite(x: u8)
    ensures
        0 <= byte_f64_bits(x as int) < SIGN_BIT,
        f64_bits_finite(byte_f64_bits(x as int) as u64),
{
}

/// The JSON steps of a column path are strings and `i64` numbers.
proof fn lemma_path_to_json_scalars(p: Seq<PathMemberView>)
    ensures
        path_to_json(p) matches Ok(s) ==> forall|i: int| 0 <= i < s.len() ==> (#[trigger] s[i] is Str
            || s[i] matches JsonView::Number(JsonNumber::Int(_))),
    decreases p.len(),
{
    if p.len() > 0 {
        lemma_path_to_json_scalars(p.drop_last());
    }
}

/// The documents for a sequence of well-converting values are well formed.
proof fn lemma_nu_seq_to_json_well_formed(l: Seq<NuView>)
    requires
        forall|k: int| 0 <= k < l.len() ==> (#[trigger] nu_to_json(l[k]) matches Ok(x) ==> json_well_formed(x)),
    ensures
        nu_seq_to_json(l) matches Ok(s) ==> forall|i: int| 0 <= i < s.len() ==> #[trigger] json_well_formed(s[i]),
    decreases l.len(),
{
    if l.len() > 0 {
        let p = l.drop_last();
        assert forall|k: int| 0 <= k < p.len() implies (#[trigger] nu_to_json(p[k]) matches Ok(x) ==> json_well_formed(x)) by {
            assert(p[k] == l[k]);
        }
        lemma_nu_seq_to_json_well_formed(p);
        assert(nu_to_json(l[l.len() - 1]) matches Ok(x) ==> json_well_formed(x));
    }
}

/// The members for the columns of a row are well formed when each column
/// converts to a well-formed document.
proof fn lemma_columns_to_json_well_formed(o: Seq<(Seq<char>, NuView)>)
    requires
        forall|k: int| 0 <= k < o.len() ==> (#[trigger] nu_to_json(o[k].1) matches Ok(x) ==> json_well_formed(x)),
    ensures
        nu_columns_to_json(o) matches Ok(m) ==> forall|i: int| 0 <= i < m.len() ==> #[trigger] json_well_formed(m[i].1),
    decreases o.len(),
{
    if o.len() > 0 {
        let p = o.drop_last();
        assert forall|k: int| 0 <= k < p.len() implies (#[trigger] nu_to_json(p[k].1) matches Ok(x) ==> json_well_formed(x)) by {
            assert(p[k] == o[k]);
        }
        lemma_columns_to_json_well_formed(p);
        assert(nu_to_json(o[o.len() - 1].1) matches Ok(x) ==> json_well_formed(x));
        if let Ok(m) = nu_columns_to_json(p) {
            if let Ok(x) = nu_to_json(o.last().1) {
                lemma_member_insert_values_well_formed(m, o.last().0, x);
            }
        }
    }
}

/// The JSON document of a shell value, when there is one, is well formed:
/// the members of every object have distinct names, whatever names the
/// value's rows repeat.
pub proof fn nu_to_json_well_formed(v: NuView)
    ensures
        nu_to_json(v) matches Ok(j) ==> json_well_formed(j),
    decreases v,
{
    match v {
        NuView::Decimal(b) => {
            if fits_f32(b) {
                f32_rounded_is_finite(b);
            }
        },
        NuView::ColumnPath(p) => {
            lemma_path_to_json_scalars(p);
            if let Ok(s) = path_to_json(p) {
                assert forall|i: int| 0 <= i < s.len() implies #[trigger] json_well_formed(s[i]) by {
                    assert(s[i] is Str || s[i] matches JsonView::Number(JsonNumber::Int(_)));
                }
                lemma_json_seq_well_formed(s);
            }
        },
        NuView::Binary(b) => {
            let s = bytes_to_json(b);
            assert forall|i: int| 0 <= i < s.len() implies #[trigger] json_well_formed(s[i]) by {
                lemma_byte_bits_finite(b[i]);
                assert(s[i] == JsonView::Number(JsonNumber::Float(byte_f64_bits(b[i] as int) as u64)));
            }
            lemma_json_seq_well_formed(s);
        },
        NuView::Table(l) => {
            assert forall|k: int| 0 <= k < l.len() implies (#[trigger] nu_to_json(l[k]) matches Ok(x) ==> json_well_formed(x)) by {
                assert(decreases_to!(v => l[k]));
                nu_to_json_well_formed(l[k]);
            }
            lemma_nu_seq_to_json_well_formed(l);
            if let Ok(s) = nu_seq_to_json(l) {
                lemma_json_seq_well_formed(s);
            }
        },
        NuView::Row(o) => {
            crate::roundtrip::row_gives_distinct_members(o);
            assert forall|k: int| 0 <= k < o.len() implies (#[trigger] nu_to_json(o[k].1) matches Ok(x) ==> json_well_formed(x)) by {
                assert(decreases_to!(v => o[k].1));
                nu_to_json_well_formed(o[k].1);
            }
            lemma_columns_to_json_well_formed(o);
            if let Ok(m) = nu_columns_to_json(o) {
                lemma_json_members_well_formed(m);
            }
        },
        _ => {},
    }
}

/// A decimal leaves for JSON with its sign, and with its magnitude rounded
/// to `f32` precision exactly as that of a positive decimal would be; one
/// that an `f32` holds exactly leaves unchanged, and in the normal range of
/// `f32` the magnitude moves by at most half a step of `f32` (`2^28` in the
/// bits of the `f64`). One larger in magnitude than `f32::MAX` fails.
pub proof fn decimal_leaves_with_its_sign(b: u64)
    ensures
        fits_f32(b) ==> (nu_to_json(NuView::Decimal(b)) matches Ok(JsonView::Number(JsonNumber::Float(r))) && {
            &&& r as int / SIGN_BIT as int == b as int / SIGN_BIT as int
            &&& r as int % SIGN_BIT as int == f32_rounded_bits((b as int % SIGN_BIT as int) as u64)
            &&& f32_exact(b) ==> r == b
            &&& (b as int % SIGN_BIT as int) / EXPONENT_STEP as int >= 897 ==> {
                let d = r as int % SIGN_BIT as int - b as int % SIGN_BIT as int;
                -0x1000_0000 <= d <= 0x1000_0000
            }
        }),
        !fits_f32(b) ==> nu_to_json(NuView::Decimal(b)) == Err::<JsonView, ErrorView>(
            ErrorView::Labeled("Could not convert value to decimal number"@, "could not convert to decimal"@),
        ),
{
    if fits_f32(b) {
        f32_rounded_is_finite(b);
        let m: u64 = (b as int % SIGN_BIT as int) as u64;
        assert(m as int % SIGN_BIT as int == m as int);
        assert(m as int / SIGN_BIT as int == 0);
        assert(fits_f32(m));
        assert(f32_rounded_bits(b) - (b as int / (SIGN_BIT as int)) * (SIGN_BIT as int) == f32_rounded_bits(m));
    }
}

/// A JSON number enters the shell with its value: a float as the decimal
/// with the very same bits, an `i64` (or a `u64` that is one) as that whole
/// number, and a larger `u64` as a positive decimal within half a step of
/// the `f64`s there (`2^10`) of it.
pub proof fn json_numbers_enter_with_their_value(b: u64, i: i64, u: u64)
    ensures
        json_to_nu(JsonView::Number(JsonNumber::Float(b))) == NuView::Decimal(b),
        json_to_nu(JsonView::Number(JsonNumber::Int(i))) == NuView::Int(IntView::Small(i)),
        u <= i64::MAX ==> json_to_nu(JsonView::Number(JsonNumber::UInt(u))) == NuView::Int(IntView::Small(u as i64)),
        u > i64::MAX ==> (json_to_nu(JsonView::Number(JsonNumber::UInt(u))) matches NuView::Decimal(d) && {
            ||| (d as int / EXPONENT_STEP as int == 1086 && {
                    let v = (EXPONENT_STEP as int + d as int % EXPONENT_STEP as int) * 2048;
                    -1024 <= v - u <= 1024
                })
            ||| (d as int == 1087 * EXPONENT_STEP as int && 0x1_0000_0000_0000_0000 - u <= 1024)
        }),
{
}

/// JSON enters the shell shape for shape: `null` as nothing, a boolean and a
/// string as themselves, and an array as a table of its elements' values,
/// in order and none left out.
pub proof fn json_enters_shape_for_shape(x: bool, t: Seq<char>, a: Seq<JsonView>)
    ensures
        json_to_nu(JsonView::Null) == NuView::Nothing,
        json_to_nu(JsonView::Bool(x)) == NuView::Boolean(x),
        json_to_nu(JsonView::Str(t)) == NuView::Str(t),
        json_to_nu(JsonView::Array(a)) matches NuView::Table(l) && l.len() == a.len(),
        forall|i: int| 0 <= i < a.len() ==> #[trigger] json_to_nu(JsonView::Array(a))->Table_0[i] == json_to_nu(a[i]),
{
    lemma_json_seq_to_nu_elements(a);
}

/// An object whose member names are distinct enters the shell as a row with
/// the same names in the same order, the column of each name holding the
/// value of its member.
pub proof fn json_object_enters_as_row(o: Seq<(Seq<char>, JsonView)>)
    requires
        keys_distinct(o),
    ensures
        json_to_nu(JsonView::Object(o)) matches NuView::Row(c) && c.len() == o.len(),
        forall|i: int| 0 <= i < o.len() ==> #[trigger] json_to_nu(JsonView::Object(o))->Row_0[i].0 == o[i].0,
        forall|i: int| 0 <= i < o.len() ==> #[trigger] column(json_to_nu(JsonView::Object(o)), o[i].0) == Some(json_to_nu(o[i].1)),
{
    crate::roundtrip::lemma_members_distinct(o);
    let c = json_members_to_nu(o);
    assert(c.len() == o.len());
    assert forall|i: int| 0 <= i < o.len() implies #[trigger] c[i].0 == o[i].0 && c[i].1 == json_to_nu(o[i].1) by {}
    assert(keys_distinct(c)) by {
        assert forall|i: int, j: int| 0 <= i < j < c.len() implies c[i].0 != c[j].0 by {
            assert(c[i].0 == o[i].0 && c[j].0 == o[j].0);
        }
    }
    assert forall|i: int| 0 <= i < o.len() implies #[trigger] column(json_to_nu(JsonView::Object(o)), o[i].0) == Some(json_to_nu(o[i].1)) by {
        lemma_column_of_distinct(c, i);
        assert(c[i].0 == o[i].0);
    }
}

/// Shell values that are not containers leave for JSON as what they show:
/// truth values as booleans, texts of every kind as strings, sizes and
/// `i64`s as those numbers, stream markers, blocks, ranges and nothing as
/// `null`. A whole number beyond `i64` fails naming its text, and an error
/// value fails with that error.
pub proof fn scalars_leave_as_json(x: bool, t: Seq<char>, f: u64, n: i64, e: ErrorView)
    ensures
        nu_to_json(NuView::Boolean(x)) == Ok::<JsonView, ErrorView>(JsonView::Bool(x)),
        nu_to_json(NuView::Str(t)) == Ok::<JsonView, ErrorView>(JsonView::Str(t)),
        nu_to_json(NuView::Duration(t)) == Ok::<JsonView, ErrorView>(JsonView::Str(t)),
        nu_to_json(NuView::Date(t)) == Ok::<JsonView, ErrorView>(JsonView::Str(t)),
        nu_to_json(NuView::GlobPattern(t)) == Ok::<JsonView, ErrorView>(JsonView::Str(t)),
        nu_to_json(NuView::FilePath(t)) == Ok::<JsonView, ErrorView>(JsonView::Str(t)),
        nu_to_json(NuView::Int(IntView::Small(n))) == Ok::<JsonView, ErrorView>(JsonView::Number(JsonNumber::Int(n))),
        f <= i64::MAX ==> nu_to_json(NuView::Filesize(f)) == Ok::<JsonView, ErrorView>(JsonView::Number(JsonNumber::Int(f as i64))),
        f > i64::MAX ==> nu_to_json(NuView::Filesize(f)) == Ok::<JsonView, ErrorView>(JsonView::Number(JsonNumber::UInt(f))),
        nu_to_json(NuView::Nothing) == Ok::<JsonView, ErrorView>(JsonView::Null),
        nu_to_json(NuView::EndOfStream) == Ok::<JsonView, ErrorView>(JsonView::Null),
        nu_to_json(NuView::BeginningOfStream) == Ok::<JsonView, ErrorView>(JsonView::Null),
        nu_to_json(NuView::Block) == Ok::<JsonView, ErrorView>(JsonView::Null),
        nu_to_json(NuView::Range) == Ok::<JsonView, ErrorView>(JsonView::Null),
        nu_to_json(NuView::Int(IntView::Big(t))) == Err::<JsonView, ErrorView>(
            ErrorView::Runtime("Could not get value as number "@ + t),
        ),
        nu_to_json(NuView::Error(e)) == Err::<JsonView, ErrorView>(e),
{
}

/// The documents for a sequence of shell values: when every value converts,
/// the converted values in order; otherwise the error of the first value
/// that fails.
proof fn lemma_nu_seq_to_json_outcome(l: Seq<NuView>)
    ensures
        (forall|k: int| 0 <= k < l.len() ==> (#[trigger] nu_to_json(l[k])) is Ok) ==> (
            nu_seq_to_json(l) matches Ok(s) && s.len() == l.len()
                && forall|i: int| 0 <= i < l.len() ==> nu_to_json(l[i]) == Ok::<JsonView, ErrorView>(#[trigger] s[i])
        ),
        forall|k: int| 0 <= k < l.len() && (#[trigger] nu_to_json(l[k])) is Err
            && (forall|m: int| 0 <= m < k ==> (#[trigger] nu_to_json(l[m])) is Ok)
            ==> nu_seq_to_json(l) == Err::<Seq<JsonView>, ErrorView>(nu_to_json(l[k])->Err_0),
    decreases l.len(),
{
    if l.len() > 0 {
        let p = l.drop_last();
        lemma_nu_seq_to_json_outcome(p);
        assert(forall|k: int| 0 <= k < p.len() ==> #[trigger] p[k] == l[k]);
        if forall|k: int| 0 <= k < l.len() ==> (#[trigger] nu_to_json(l[k])) is Ok {
            assert(forall|k: int| 0 <= k < p.len() ==> (#[trigger] nu_to_json(p[k])) is Ok) by {
                assert forall|k: int| 0 <= k < p.len() implies (#[trigger] nu_to_json(p[k])) is Ok by {
                    assert(nu_to_json(l[k]) is Ok);
                }
            }
            assert(nu_to_json(l[l.len() - 1]) is Ok);
            let s = nu_seq_to_json(l)->Ok_0;
            assert forall|i: int| 0 <= i < l.len() implies nu_to_json(l[i]) == Ok::<JsonView, ErrorView>(#[trigger] s[i]) by {
                if i < l.len() - 1 {
                    assert(p[i] == l[i]);
                }
            }
        }
        assert forall|k: int| 0 <= k < l.len() && (#[trigger] nu_to_json(l[k])) is Err
            && (forall|m: int| 0 <= m < k ==> (#[trigger] nu_to_json(l[m])) is Ok)
            implies nu_seq_to_json(l) == Err::<Seq<JsonView>, ErrorView>(nu_to_json(l[k])->Err_0) by {
            if k < l.len() - 1 {
                assert(p[k] == l[k]);
                assert forall|m: int| 0 <= m < k implies (#[trigger] nu_to_json(p[m])) is Ok by {
                    assert(p[m] == l[m]);
                    assert(nu_to_json(l[m]) is Ok);
                }
            } else {
                assert forall|m: int| 0 <= m < p.len() implies (#[trigger] nu_to_json(p[m])) is Ok by {
                    assert(p[m] == l[m]);
                    assert(nu_to_json(l[m]) is Ok);
                }
            }
        }
    }
}

/// A table leaves for JSON as an array of its values' documents, in order,
/// when every value converts; otherwise it fails with the error of the
/// first value that fails.
pub proof fn table_leaves_in_order(l: Seq<NuView>)
    ensures
        (forall|k: int| 0 <= k < l.len() ==> (#[trigger] nu_to_json(l[k])) is Ok) ==> (
            nu_to_json(NuView::Table(l)) matches Ok(JsonView::Array(s)) && s.len() == l.len()
                && forall|i: int| 0 <= i < l.len() ==> nu_to_json(l[i]) == Ok::<JsonView, ErrorView>(#[trigger] s[i])
        ),
        forall|k: int| 0 <= k < l.len() && (#[trigger] nu_to_json(l[k])) is Err
            && (forall|m: int| 0 <= m < k ==> (#[trigger] nu_to_json(l[m])) is Ok)
            ==> nu_to_json(NuView::Table(l)) == Err::<JsonView, ErrorView>(nu_to_json(l[k])->Err_0),
{
    lemma_nu_seq_to_json_outcome(l);
}

/// The members for the columns of a row with distinct names: when every
/// column converts, the same names in order, each with its column's
/// document; otherwise the error of the first column that fails.
proof fn lemma_nu_columns_to_json_outcome(o: Seq<(Seq<char>, NuView)>)
    ensures
        (forall|k: int| 0 <= k < o.len() ==> (#[trigger] nu_to_json(o[k].1)) is Ok) ==> nu_columns_to_json(o) is Ok,
        keys_distinct(o) && (forall|k: int| 0 <= k < o.len() ==> (#[trigger] nu_to_json(o[k].1)) is Ok) ==> (
            nu_columns_to_json(o) matches Ok(m) && m.len() == o.len()
                && forall|i: int| 0 <= i < o.len() ==> (#[trigger] m[i]).0 == o[i].0
                    && nu_to_json(o[i].1) == Ok::<JsonView, ErrorView>(m[i].1)
        ),
        forall|k: int| 0 <= k < o.len() && (#[trigger] nu_to_json(o[k].1)) is Err
            && (forall|j: int| 0 <= j < k ==> (#[trigger] nu_to_json(o[j].1)) is Ok)
            ==> nu_columns_to_json(o) == Err::<Seq<(Seq<char>, JsonView)>, ErrorView>(nu_to_json(o[k].1)->Err_0),
    decreases o.len(),
{
    if o.len() > 0 {
        let p = o.drop_last();
        lemma_nu_columns_to_json_outcome(p);
        assert(forall|k: int| 0 <= k < p.len() ==> #[trigger] p[k] == o[k]);
        if forall|k: int| 0 <= k < o.len() ==> (#[trigger] nu_to_json(o[k].1)) is Ok {
            assert forall|k: int| 0 <= k < p.len() implies (#[trigger] nu_to_json(p[k].1)) is Ok by {
                assert(p[k] == o[k]);
                assert(nu_to_json(o[k].1) is Ok);
            }
            assert(nu_to_json(o[o.len() - 1].1) is Ok);
        }
        if keys_distinct(o) && (forall|k: int| 0 <= k < o.len() ==> (#[trigger] nu_to_json(o[k].1)) is Ok) {
            assert(keys_distinct(p));
            assert forall|k: int| 0 <= k < p.len() implies (#[trigger] nu_to_json(p[k].1)) is Ok by {
                assert(p[k] == o[k]);
                assert(nu_to_json(o[k].1) is Ok);
            }
            assert(nu_to_json(o[o.len() - 1].1) is Ok);
            let mp = nu_columns_to_json(p)->Ok_0;
            lemma_key_position(mp, o.last().0);
            assert forall|j: int| 0 <= j < mp.len() implies mp[j].0 != o.last().0 by {
                assert(mp[j].0 == p[j].0);
                assert(p[j] == o[j]);
            }
            let x = nu_to_json(o.last().1)->Ok_0;
            assert(nu_columns_to_json(o) == Ok::<Seq<(Seq<char>, JsonView)>, ErrorView>(mp.push((o.last().0, x))));
            let m = mp.push((o.last().0, x));
            assert forall|i: int| 0 <= i < o.len() implies (#[trigger] m[i]).0 == o[i].0
                && nu_to_json(o[i].1) == Ok::<JsonView, ErrorView>(m[i].1) by {
                if i < o.len() - 1 {
                    assert(m[i] == mp[i]);
                    assert(p[i] == o[i]);
                }
            }
        }
        assert forall|k: int| 0 <= k < o.len() && (#[trigger] nu_to_json(o[k].1)) is Err
            && (forall|j: int| 0 <= j < k ==> (#[trigger] nu_to_json(o[j].1)) is Ok)
            implies nu_columns_to_json(o) == Err::<Seq<(Seq<char>, JsonView)>, ErrorView>(nu_to_json(o[k].1)->Err_0) by {
            if k < o.len() - 1 {
                assert(p[k] == o[k]);
                assert forall|j: int| 0 <= j < k implies (#[trigger] nu_to_json(p[j].1)) is Ok by {
                    assert(p[j] == o[j]);
                    assert(nu_to_json(o[j].1) is Ok);
                }
            } else {
                assert forall|j: int| 0 <= j < p.len() implies (#[trigger] nu_to_json(p[j].1)) is Ok by {
                    assert(p[j] == o[j]);
                    assert(nu_to_json(o[j].1) is Ok);
                }
            }
        }
    }
}

/// A row whose column names are distinct leaves for JSON as an object with
/// the same names in the same order, each member holding its column's
/// document, when every column converts; otherwise it fails with the error
/// of the first column that fails.
pub proof fn row_leaves_as_object(o: Seq<(Seq<char>, NuView)>)
    ensures
        keys_distinct(o) && (forall|k: int| 0 <= k < o.len() ==> (#[trigger] nu_to_json(o[k].1)) is Ok) ==> (
            nu_to_json(NuView::Row(o)) matches Ok(JsonView::Object(m)) && m.len() == o.len()
                && forall|i: int| 0 <= i < o.len() ==> (#[trigger] m[i]).0 == o[i].0
                    && nu_to_json(o[i].1) == Ok::<JsonView, ErrorView>(m[i].1)
        ),
        forall|k: int| 0 <= k < o.len() && (#[trigger] nu_to_json(o[k].1)) is Err
            && (forall|j: int| 0 <= j < k ==> (#[trigger] nu_to_json(o[j].1)) is Ok)
            ==> nu_to_json(NuView::Row(o)) == Err::<JsonView, ErrorView>(nu_to_json(o[k].1)->Err_0),
{
    lemma_nu_columns_to_json_outcome(o);
}

/// The `f64` bits for a byte equal that byte.
proof fn lemma_byte_bits_equal(x: u8)
    ensures
        f64_bits_equal_whole(byte_f64_bits(x as int) as u64, x as int),
{
    lemma2_to64();
    lemma_byte_bits_finite(x);
    let bits: int = byte_f64_bits(x as int);
    assert(bits as u64 as int == bits);
    if x >= 128 {
        assert(bits == 1030 * 0x10_0000_0000_0000 + (x - 128) * 0x200000000000);
        assert(0 <= (x - 128) * 0x200000000000 < 0x10_0000_0000_0000);
        assert(bits / 0x10_0000_0000_0000 == 1030);
        assert(bits % 0x10_0000_0000_0000 == (x - 128) * 0x200000000000);
        assert(pow2(7) == 128);
        assert((0x10_0000_0000_0000 + (x - 128) * 0x200000000000) * 128 == x * 0x10_0000_0000_0000);
    } else if x >= 64 {
        assert(bits == 1029 * 0x10_0000_0000_0000 + (x - 64) * 0x400000000000);
        assert(0 <= (x - 64) * 0x400000000000 < 0x10_0000_0000_0000);
        assert(bits / 0x10_0000_0000_0000 == 1029);
        assert(bits % 0x10_0000_0000_0000 == (x - 64) * 0x400000000000);
        assert(pow2(6) == 64);
        assert((0x10_0000_0000_0000 + (x - 64) * 0x400000000000) * 64 == x * 0x10_0000_0000_0000);
    } else if x >= 32 {
        assert(bits == 1028 * 0x10_0000_0000_0000 + (x - 32) * 0x800000000000);
        assert(0 <= (x - 32) * 0x800000000000 < 0x10_0000_0000_0000);
        assert(bits / 0x10_0000_0000_0000 == 1028);
        assert(bits % 0x10_0000_0000_0000 == (x - 32) * 0x800000000000);
        assert(pow2(5) == 32);
        assert((0x10_0000_0000_0000 + (x - 32) * 0x800000000000) * 32 == x * 0x10_0000_0000_0000);
    } else if x >= 16 {
        assert(bits == 1027 * 0x10_0000_0000_0000 + (x - 16) * 0x1000000000000);
        assert(0 <= (x - 16) * 0x1000000000000 < 0x10_0000_0000_0000);
        assert(bits / 0x10_0000_0000_0000 == 1027);
        assert(bits % 0x10_0000_0000_0000 == (x - 16) * 0x1000000000000);
        assert(pow2(4) == 16);
        assert((0x10_0000_0000_0000 + (x - 16) * 0x1000000000000) * 16 == x * 0x10_0000_0000_0000);
    } else if x >= 8 {
        assert(bits == 1026 * 0x10_0000_0000_0000 + (x - 8) * 0x2000000000000);
        assert(0 <= (x - 8) * 0x2000000000000 < 0x10_0000_0000_0000);
        assert(bits / 0x10_0000_0000_0000 == 1026);
        assert(bits % 0x10_0000_0000_0000 == (x - 8) * 0x2000000000000);
        assert(pow2(3) == 8);
        assert((0x10_0000_0000_0000 + (x - 8) * 0x2000000000000) * 8 == x * 0x10_0000_0000_0000);
    } else if x >= 4 {
        assert(bits == 1025 * 0x10_0000_0000_0000 + (x - 4) * 0x4000000000000);
        assert(0 <= (x - 4) * 0x4000000000000 < 0x10_0000_0000_0000);
        assert(bits / 0x10_0000_0000_0000 == 1025);
        assert(bits % 0x10_0000_0000_0000 == (x - 4) * 0x4000000000000);
        assert(pow2(2) == 4);
        assert((0x10_0000_0000_0000 + (x - 4) * 0x4000000000000) * 4 == x * 0x10_0000_0000_0000);
    } else if x >= 2 {
        assert(bits == 1024 * 0x10_0000_0000_0000 + (x - 2) * 0x8000000000000);
        assert(0 <= (x - 2) * 0x8000000000000 < 0x10_0000_0000_0000);
        assert(bits / 0x10_0000_0000_0000 == 1024);
        assert(bits % 0x10_0000_0000_0000 == (x - 2) * 0x8000000000000);
        assert(pow2(1) == 2);
        assert((0x10_0000_0000_0000 + (x - 2) * 0x8000000000000) * 2 == x * 0x10_0000_0000_0000);
    } else if x >= 1 {
        assert(bits == 1023 * 0x10_0000_0000_0000 + (x - 1) * 0x10000000000000);
        assert(0 <= (x - 1) * 0x10000000000000 < 0x10_0000_0000_0000);
        assert(bits / 0x10_0000_0000_0000 == 1023);
        assert(bits % 0x10_0000_0000_0000 == (x - 1) * 0x10000000000000);
        assert(pow2(0) == 1);
        assert((0x10_0000_0000_0000 + (x - 1) * 0x10000000000000) * 1 == x * 0x10_0000_0000_0000);
    }
}

/// Binary data leaves for JSON as an array with one number per byte, in
/// order, each equal to its byte.
pub proof fn binary_leaves_as_byte_numbers(b: Seq<u8>)
    ensures
        nu_to_json(NuView::Binary(b)) matches Ok(JsonView::Array(s)) && s.len() == b.len(),
        forall|i: int| 0 <= i < b.len() ==> ((#[trigger] nu_to_json(NuView::Binary(b))->Ok_0->Array_0[i]) matches
            JsonView::Number(JsonNumber::Float(bits)) && f64_bits_equal_whole(bits, b[i] as int)),
{
    let s = bytes_to_json(b);
    assert forall|i: int| 0 <= i < b.len() implies ((#[trigger] nu_to_json(NuView::Binary(b))->Ok_0->Array_0[i]) matches
        JsonView::Number(JsonNumber::Float(bits)) && f64_bits_equal_whole(bits, b[i] as int)) by {
        lemma_byte_bits_equal(b[i]);
        assert(s[i] == JsonView::Number(JsonNumber::Float(byte_f64_bits(b[i] as int) as u64)));
    }
}

/// The view of the outcome of a conversion to JSON.
pub open spec fn json_result_view(r: Result<JsonValue, CliError>) -> Result<JsonView, ErrorView> {
    match r {
        Ok(j) => Ok(j@),
        Err(e) => Err(e@),
    }
}

/// The bits of the `f64` equal to the byte `x`.
pub fn byte_to_f64_bits(x: u8) -> (b: u64)
    ensures
        b == byte_f64_bits(x as int),
{
    let x: u64 = x as u64;
    if x >= 128 {
        1030 * 0x10000000000000 + (x - 128) * 0x200000000000
    } else if x >= 64 {
        1029 * 0x10000000000000 + (x - 64) * 0x400000000000
    } else if x >= 32 {
        1028 * 0x10000000000000 + (x - 32) * 0x800000000000
    } else if x >= 16 {
        1027 * 0x10000000000000 + (x - 16) * 0x1000000000000
    } else if x >= 8 {
        1026 * 0x10000000000000 + (x - 8) * 0x2000000000000
    } else if x >= 4 {
        1025 * 0x10000000000000 + (x - 4) * 0x4000000000000
    } else if x >= 2 {
        1024 * 0x10000000000000 + (x - 2) * 0x8000000000000
    } else if x == 1 {
        1023 * 0x10000000000000
    } else {
        0
    }
}

/// The bits of the `f64` nearest to `u` (ties to even), for `u` above `i64::MAX`.
pub fn large_u64_to_f64_bits(u: u64) -> (b: u64)
    requires
        u > i64::MAX,
    ensures
        b == large_u64_f64_bits(u as int),
{
    let q: u64 = u / 2048;
    let r: u64 = u % 2048;
    let m: u64 = if r > 1024 || (r == 1024 && q % 2 == 1) {
        q + 1
    } else {
        q
    };
    if m == 0x20000000000000 {
        1087 * 0x10000000000000
    } else {
        1086 * 0x10000000000000 + (m - 0x10000000000000)
    }
}

/// The shell value for a JSON number.
fn json_number_to_nu_value(n: JsonNumber) -> (r: NuValue)
    ensures
        r@ == json_number_to_nu(n),
{
    match n {
        JsonNumber::Int(i) => NuValue::Int(IntValue::Small(i)),
        JsonNumber::UInt(u) => if u <= 0x7fff_ffff_ffff_ffff {
            NuValue::Int(IntValue::Small(u as i64))
        } else {
            NuValue::Decimal(large_u64_to_f64_bits(u))
        },
        JsonNumber::Float(b) => NuValue::Decimal(b),
    }
}

/// Converts a JSON document into a shell value. Elements of an array that
/// fail to convert are left out of the table; a member of an object that
/// fails to convert makes the whole conversion fail. With numbers read as
/// `i64`s or `f64`s, no document fails.
pub fn convert_json_value_to_nu_value(v: &JsonValue) -> (r: Result<NuValue, CliError>)
    ensures
        r matches Ok(n) && n@ == json_to_nu(v@),
        r matches Ok(n) && nu_well_formed(n@),
    decreases v,
{
    proof {
        json_to_nu_well_formed(v@);
    }
    match v {
        JsonValue::Null => Ok(NuValue::Nothing),
        JsonValue::Bool(b) => Ok(NuValue::Boolean(*b)),
        JsonValue::Number(n) => Ok(json_number_to_nu_value(*n)),
        JsonValue::Str(s) => Ok(NuValue::Str(s.clone())),
        JsonValue::Array(a) => {
            let ghost av = a@.map_values(|x: JsonValue| x@);
            proof {
                lemma_json_seq_view(a@);
            }
            let mut t: Vec<NuValue> = Vec::new();
            let mut i: usize = 0;
            while i < a.len()
                invariant
                    i <= a@.len(),
                    *v == JsonValue::Array(*a),
                    av == a@.map_values(|x: JsonValue| x@),
                    t@.map_values(|x: NuValue| x@) == json_seq_to_nu(av.take(i as int)),
                decreases a@.len() - i,
            {
                let elem = &a[i];
                proof {
                    assert(*elem == a@[i as int]);
                    assert(decreases_to!(*v => (*v)->Array_0));
                    assert(decreases_to!(*a => a@));
                    assert(decreases_to!(a@ => a@[i as int]));
                    assert(decreases_to!(*v => *elem));
                }
                let converted = convert_json_value_to_nu_value(elem);
                assert(av.take(i + 1).drop_last() =~= av.take(i as int));
                match converted {
                    Ok(x) => {
                        t.push(x);
                        assert(t@.map_values(|x: NuValue| x@) =~= json_seq_to_nu(av.take(i as int)).push(x@));
                    },
                    Err(_) => {},
                }
                i = i + 1;
            }
            assert(av.take(a@.len() as int) =~= av);
            proof {
                lemma_nu_seq_view(t@);
            }
            Ok(NuValue::Table(t))
        },
        JsonValue::Object(o) => {
            let ghost ov = entries_of(o@);
            proof {
                lemma_json_entries_view(o@);
            }
            let mut row: Vec<(String, NuValue)> = Vec::new();
            let mut i: usize = 0;
            while i < o.len()
                invariant
                    i <= o@.len(),
                    *v == JsonValue::Object(*o),
                    ov == entries_of(o@),
                    entries_of(row@) == json_members_to_nu(ov.take(i as int)),
                decreases o@.len() - i,
            {
                let converted = convert_json_value_to_nu_value(&o[i].1);
                assert(ov.take(i + 1).drop_last() =~= ov.take(i as int));
                match converted {
                    Ok(x) => {
                        insert_entry(&mut row, o[i].0.clone(), x);
                    },
                    Err(e) => {
                        return Err(e);
                    },
                }
                i = i + 1;
            }
            assert(ov.take(o@.len() as int) =~= ov);
            proof {
                lemma_nu_entries_view(row@);
            }
            Ok(NuValue::Row(row))
        },
    }
}

/// The view of the outcome of converting a sequence to JSON.
pub open spec fn json_seq_result_view(r: Result<Vec<JsonValue>, CliError>) -> Result<Seq<JsonView>, ErrorView> {
    match r {
        Ok(v) => Ok(v@.map_values(|x: JsonValue| x@)),
        Err(e) => Err(e@),
    }
}

/// The JSON number for a whole number of the shell.
fn int_value_to_json(i: &IntValue) -> (r: Result<JsonNumber, CliError>)
    ensures
        match r {
            Ok(n) => int_to_json(i@) == Ok::<JsonNumber, ErrorView>(n),
            Err(e) => int_to_json(i@) == Err::<JsonNumber, ErrorView>(e@),
        },
{
    match i {
        IntValue::Small(n) => Ok(JsonNumber::Int(*n)),
        IntValue::Big(t) => Err(
            CliError::Runtime(String::from_str("Could not get value as number ").concat(t.as_str())),
        ),
    }
}

/// The JSON number for a `u64`.
pub fn json_number_of_u64(u: u64) -> (r: JsonNumber)
    ensures
        r == json_number_from_u64(u),
{
    if u <= 0x7fff_ffff_ffff_ffff {
        JsonNumber::Int(u as i64)
    } else {
        JsonNumber::UInt(u)
    }
}

/// Converts a shell value into a JSON document; a decimal is rounded to the
/// nearest `f32`. It fails on a whole number beyond `i64` (by a runtime error
/// naming it), on a decimal larger in magnitude than `f32::MAX`, and on an error value (with that error); inside tables, rows and
/// column paths the first failure in order is the one reported.
pub fn convert_nu_value_to_json_value(v: &NuValue) -> (r: Result<JsonValue, CliError>)
    ensures
        json_result_view(r) == nu_to_json(v@),
        r matches Ok(j) ==> json_well_formed(j@),
    decreases v, 0nat,
{
    proof {
        nu_to_json_well_formed(v@);
    }
    match v {
        NuValue::Boolean(b) => Ok(JsonValue::Bool(*b)),
        NuValue::Filesize(f) => Ok(JsonValue::Number(json_number_of_u64(*f))),
        NuValue::Duration(t) => Ok(JsonValue::Str(t.clone())),
        NuValue::Date(t) => Ok(JsonValue::Str(t.clone())),
        NuValue::EndOfStream => Ok(JsonValue::Null),
        NuValue::BeginningOfStream => Ok(JsonValue::Null),
        NuValue::Decimal(b) => {
            if fits_in_f32(*b) {
                Ok(JsonValue::Number(JsonNumber::Float(to_f32_precision(*b))))
            } else {
                Err(
                    CliError::Labeled(
                        String::from_str("Could not convert value to decimal number"),
                        String::from_str("could not convert to decimal"),
                    ),
                )
            }
        },
        NuValue::Int(i) => match int_value_to_json(i) {
            Ok(n) => Ok(JsonValue::Number(n)),
            Err(e) => Err(e),
        },
        NuValue::Nothing => Ok(JsonValue::Null),
        NuValue::GlobPattern(s) => Ok(JsonValue::Str(s.clone())),
        NuValue::Str(s) => Ok(JsonValue::Str(s.clone())),
        NuValue::ColumnPath(path) => {
            let ghost pv = path@.map_values(|m: crate::value::PathMember| m@);
            let mut out: Vec<JsonValue> = Vec::new();
            let mut i: usize = 0;
            assert(pv.take(0) =~= Seq::<PathMemberView>::empty());
            assert(out@.map_values(|x: JsonValue| x@) =~= Seq::<JsonView>::empty());
            while i < path.len()
                invariant
                    i <= path@.len(),
                    *v == NuValue::ColumnPath(*path),
                    pv == path@.map_values(|m: crate::value::PathMember| m@),
                    path_to_json(pv.take(i as int)) == Ok::<Seq<JsonView>, ErrorView>(out@.map_values(|x: JsonValue| x@)),
                decreases path@.len() - i,
            {
                assert(pv.take(i + 1).drop_last() =~= pv.take(i as int));
                match &path[i] {
                    crate::value::PathMember::Str(t) => {
                        out.push(JsonValue::Str(t.clone()));
                    },
                    crate::value::PathMember::Int(n) => {
                        match int_value_to_json(n) {
                            Ok(x) => {
                                out.push(JsonValue::Number(x));
                            },
                            Err(e) => {
                                assert(path_to_json(pv.take(i + 1)) == Err::<Seq<JsonView>, ErrorView>(e@));
                                proof { lemma_path_error_persists(pv, i as int + 1, e@); }
                                assert(pv.take(path@.len() as int) =~= pv);
                                return Err(e);
                            },
                        }
                    },
                }
                assert(out@.map_values(|x: JsonValue| x@) =~= path_to_json(pv.take(i as int))->Ok_0.push(out@.last()@));
                i = i + 1;
            }
            assert(pv.take(path@.len() as int) =~= pv);
            proof {
                lemma_json_seq_view(out@);
            }
            Ok(JsonValue::Array(out))
        },
        NuValue::FilePath(s) => Ok(JsonValue::Str(s.clone())),
        NuValue::Table(l) => {
            proof {
                lemma_nu_seq_view(l@);
            }
            let r = json_list(l);
            match r {
                Ok(a) => {
                    proof {
                        lemma_json_seq_view(a@);
                    }
                    Ok(JsonValue::Array(a))
                },
                Err(e) => Err(e),
            }
        },
        NuValue::Error(e) => Err(e.duplicate()),
        NuValue::Block => Ok(JsonValue::Null),
        NuValue::Range => Ok(JsonValue::Null),
        NuValue::Binary(b) => {
            let mut out: Vec<JsonValue> = Vec::new();
            let mut i: usize = 0;
            assert(out@.map_values(|x: JsonValue| x@) =~= bytes_to_json(b@.take(0)));
            while i < b.len()
                invariant
                    i <= b@.len(),
                    out@.map_values(|x: JsonValue| x@) == bytes_to_json(b@.take(i as int)),
                decreases b@.len() - i,
            {
                let bits: u64 = byte_to_f64_bits(b[i]);
                let ghost before = out@;
                out.push(JsonValue::Number(JsonNumber::Float(bits)));
                assert(b@.take(i + 1) =~= b@.take(i as int).push(b@[i as int]));
                assert(out@ == before.push(JsonValue::Number(JsonNumber::Float(bits))));
                assert(out@.map_values(|x: JsonValue| x@) =~= before.map_values(|x: JsonValue| x@).push(JsonView::Number(JsonNumber::Float(bits))));
                assert(out@.map_values(|x: JsonValue| x@) =~= bytes_to_json(b@.take(i + 1)));
                i = i + 1;
            }
            assert(b@.take(b@.len() as int) =~= b@);
            proof {
                lemma_json_seq_view(out@);
            }
            Ok(JsonValue::Array(out))
        },
        NuValue::Row(o) => {
            let ghost ov = entries_of(o@);
            proof {
                lemma_nu_entries_view(o@);
            }
            let mut m: Vec<(String, JsonValue)> = Vec::new();
            let mut i: usize = 0;
            assert(ov.take(0) =~= Seq::<(Seq<char>, NuView)>::empty());
            assert(entries_of(m@) =~= Seq::<(Seq<char>, JsonView)>::empty());
            while i < o.len()
                invariant
                    i <= o@.len(),
                    *v == NuValue::Row(*o),
                    nu_entries_view(o@) == ov,
                    ov == entries_of(o@),
                    nu_columns_to_json(ov.take(i as int)) == Ok::<Seq<(Seq<char>, JsonView)>, ErrorView>(entries_of(m@)),
                decreases o@.len() - i,
            {
                assert(ov.take(i + 1).drop_last() =~= ov.take(i as int));
                let converted = convert_nu_value_to_json_value(&o[i].1);
                match converted {
                    Ok(x) => {
                        insert_entry(&mut m, o[i].0.clone(), x);
                    },
                    Err(e) => {
                        proof { lemma_columns_error_persists(ov, i as int + 1, e@); }
                        assert(ov.take(o@.len() as int) =~= ov);
                        return Err(e);
                    },
                }
                i = i + 1;
            }
            assert(ov.take(o@.len() as int) =~= ov);
            proof {
                lemma_json_entries_view(m@);
            }
            Ok(JsonValue::Object(m))
        },
    }
}

/// Converts each shell value into a JSON document, stopping at the first failure.
fn json_list(input: &Vec<NuValue>) -> (r: Result<Vec<JsonValue>, CliError>)
    ensures
        json_seq_result_view(r) == nu_seq_to_json(input@.map_values(|x: NuValue| x@)),
    decreases input, 1nat,
{
    let ghost iv = input@.map_values(|x: NuValue| x@);
    let mut out: Vec<JsonValue> = Vec::new();
    let mut i: usize = 0;
    assert(iv.take(0) =~= Seq::<NuView>::empty());
    assert(out@.map_values(|x: JsonValue| x@) =~= Seq::<JsonView>::empty());
    while i < input.len()
        invariant
            i <= input@.len(),
            iv == input@.map_values(|x: NuValue| x@),
            nu_seq_to_json(iv.take(i as int)) == Ok::<Seq<JsonView>, ErrorView>(out@.map_values(|x: JsonValue| x@)),
        decreases input@.len() - i,
    {
        assert(iv.take(i + 1).drop_last() =~= iv.take(i as int));
        let elem = &input[i];
        proof {
            assert(*elem == input@[i as int]);
            assert(decreases_to!(*input => input@));
            assert(decreases_to!(input@ => input@[i as int]));
        }
        match convert_nu_value_to_json_value(elem) {
            Ok(x) => {
                out.push(x);
                assert(out@.map_values(|x: JsonValue| x@) =~= nu_seq_to_json(iv.take(i as int))->Ok_0.push(x@));
            },
            Err(e) => {
                proof { lemma_seq_error_persists(iv, i as int + 1, e@); }
                assert(iv.take(input@.len() as int) =~= iv);
                return Err(e);
            },
        }
        i = i + 1;
    }
    assert(iv.take(input@.len() as int) =~= iv);
    Ok(out)
}

/// Once a prefix of a column path fails, every longer prefix fails the same way.
proof fn lemma_path_error_persists(p: Seq<PathMemberView>, k: int, e: ErrorView)
    requires
        0 <= k <= p.len(),
        path_to_json(p.take(k)) == Err::<Seq<JsonView>, ErrorView>(e),
    ensures
        path_to_json(p) == Err::<Seq<JsonView>, ErrorView>(e),
    decreases p.len() - k,
{
    if k < p.len() {
        assert(p.take(k + 1).drop_last() =~= p.take(k));
        lemma_path_error_persists(p, k + 1, e);
    } else {
        assert(p.take(k) =~= p);
    }
}

/// Once a prefix of a sequence fails, every longer prefix fails the same way.
proof fn lemma_seq_error_persists(s: Seq<NuView>, k: int, e: ErrorView)
    requires
        0 <= k <= s.len(),
        nu_seq_to_json(s.take(k)) == Err::<Seq<JsonView>, ErrorView>(e),
    ensures
        nu_seq_to_json(s) == Err::<Seq<JsonView>, ErrorView>(e),
    decreases s.len() - k,
{
    if k < s.len() {
        assert(s.take(k + 1).drop_last() =~= s.take(k));
        lemma_seq_error_persists(s, k + 1, e);
    } else {
        assert(s.take(k) =~= s);
    }
}

/// Once a prefix of the columns fails, every longer prefix fails the same way.
proof fn lemma_columns_error_persists(s: Seq<(Seq<char>, NuView)>, k: int, e: ErrorView)
    requires
        0 <= k <= s.len(),
        nu_columns_to_json(s.take(k)) == Err::<Seq<(Seq<char>, JsonView)>, ErrorView>(e),
    ensures
        nu_columns_to_json(s) == Err::<Seq<(Seq<char>, JsonView)>, ErrorView>(e),
    decreases s.len() - k,
{
    if k < s.len() {
        assert(s.take(k + 1).drop_last() =~= s.take(k));
        lemma_columns_error_persists(s, k + 1, e);
    } else {
        assert(s.take(k) =~= s);
    }
}

} // verus!
