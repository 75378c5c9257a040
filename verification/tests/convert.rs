use couchbase_shell::convert::{
    byte_to_f64_bits, convert_json_value_to_nu_value, convert_nu_value_to_json_value,
    json_number_of_u64, large_u64_to_f64_bits,
};
use couchbase_shell::decimal::{fits_in_f32, to_f32_precision};
use couchbase_shell::error::CliError;
use couchbase_shell::value::{IntValue, JsonNumber, JsonValue, NuValue, PathMember};

fn s(t: &str) -> String {
    t.to_string()
}

#[test]
fn byte_bits_match_the_float_of_every_byte() {
    for x in 0..=255u8 {
        assert_eq!(byte_to_f64_bits(x), (x as f64).to_bits(), "byte {}", x);
    }
}

#[test]
fn large_unsigned_bits_round_to_nearest_even() {
    let cases: Vec<u64> = vec![
        1u64 << 63,
        (1u64 << 63) + 1,
        (1u64 << 63) + 1023,
        (1u64 << 63) + 1024,
        (1u64 << 63) + 1025,
        (1u64 << 63) + 2048 + 1024,
        (1u64 << 63) + 2047,
        u64::MAX - 1024,
        u64::MAX,
        0xdead_beef_dead_beef,
    ];
    for u in cases {
        assert_eq!(large_u64_to_f64_bits(u), (u as f64).to_bits(), "value {}", u);
    }
}

fn decimal_error() -> CliError {
    CliError::Labeled(
        s("Could not convert value to decimal number"),
        s("could not convert to decimal"),
    )
}

/// Doubles that probe every path of the narrowing: normal values, ties,
/// carries into the exponent, the edges of the range, subnormal `f32`s and
/// values that round to zero.
fn probe_doubles() -> Vec<f64> {
    let mut v: Vec<f64> = vec![
        0.0, -0.0, 0.1, -0.1, 0.25, 1.0, 1.5, 2.0 / 3.0, 3.141592653589793, 1e10, 123456789.0,
        16777217.0, 16777219.0, 33554435.0, -7.7e-3, 1e-38, 1.1754942e-38, 1.1754943e-38,
        1e-40, 1e-45, 1.4e-45, 7e-46, 7.1e-46, 1e-46, 2.8e-45, 2.1e-45, 1e-300, 5e-324,
        -5e-324, f64::MIN_POSITIVE, f32::MAX as f64, -(f32::MAX as f64), f32::MIN_POSITIVE as f64,
        1e38, 3.4e38, 0.999999999, 1.0 - 1e-17,
    ];
    let f32_max = f32::MAX as f64;
    v.push(f64::from_bits(f32_max.to_bits() - 1));
    v.push(f64::from_bits(f32_max.to_bits() - (1 << 28)));
    v.push(f64::from_bits(f32_max.to_bits() - (1 << 28) - 1));
    for i in 0..200u64 {
        v.push(f64::from_bits(0x3FF0_0000_0000_0000 + i * 0x0000_7FFF_FFFF_FFFF / 7));
        v.push(f64::from_bits(0x3800_0000_0000_0000 - i * 0x0000_1234_5678_9ABC));
        v.push(f64::from_bits(0x3690_0000_0000_0000 + i * 0x0000_3FFF_FFFF_FFFF));
        v.push(f64::from_bits((0x3FF0_0000_1000_0000 + (i << 29)) | (i & 1) << 63));
    }
    v
}

#[test]
fn decimals_are_rounded_to_f32_precision() {
    for x in probe_doubles() {
        let b = x.to_bits();
        assert!(fits_in_f32(b), "value {:e}", x);
        assert_eq!(to_f32_precision(b), ((x as f32) as f64).to_bits(), "value {:e}", x);
    }
}

#[test]
fn decimals_beyond_f32_do_not_fit() {
    let f32_max = f32::MAX as f64;
    for x in [
        f64::from_bits(f32_max.to_bits() + 1),
        -f64::from_bits(f32_max.to_bits() + 1),
        1e39,
        -1e39,
        f64::MAX,
        f64::INFINITY,
        f64::NEG_INFINITY,
        f64::NAN,
    ] {
        assert!(!fits_in_f32(x.to_bits()), "value {:e}", x);
    }
    assert!(fits_in_f32(f32_max.to_bits()));
    assert!(fits_in_f32((-f32_max).to_bits()));
}

#[test]
fn unsigned_numbers_are_ints_when_they_fit() {
    assert_eq!(json_number_of_u64(5), JsonNumber::Int(5));
    assert_eq!(json_number_of_u64(i64::MAX as u64), JsonNumber::Int(i64::MAX));
    assert_eq!(json_number_of_u64(u64::MAX), JsonNumber::UInt(u64::MAX));
}

#[test]
fn json_scalars_become_shell_scalars() {
    assert_eq!(convert_json_value_to_nu_value(&JsonValue::Null), Ok(NuValue::Nothing));
    assert_eq!(convert_json_value_to_nu_value(&JsonValue::Bool(true)), Ok(NuValue::Boolean(true)));
    assert_eq!(
        convert_json_value_to_nu_value(&JsonValue::Number(JsonNumber::Int(-7))),
        Ok(NuValue::Int(IntValue::Small(-7)))
    );
    assert_eq!(
        convert_json_value_to_nu_value(&JsonValue::Number(JsonNumber::Float(2.5f64.to_bits()))),
        Ok(NuValue::Decimal(2.5f64.to_bits()))
    );
    assert_eq!(
        convert_json_value_to_nu_value(&JsonValue::Number(JsonNumber::UInt(42))),
        Ok(NuValue::Int(IntValue::Small(42)))
    );
    assert_eq!(
        convert_json_value_to_nu_value(&JsonValue::Number(JsonNumber::UInt(u64::MAX))),
        Ok(NuValue::Decimal((u64::MAX as f64).to_bits()))
    );
    assert_eq!(convert_json_value_to_nu_value(&JsonValue::Str(s("hi"))), Ok(NuValue::Str(s("hi"))));
}

#[test]
fn json_arrays_become_tables_and_objects_rows() {
    let doc = JsonValue::Object(vec![
        (s("name"), JsonValue::Str(s("airline_10"))),
        (s("ids"), JsonValue::Array(vec![JsonValue::Number(JsonNumber::Int(1)), JsonValue::Null])),
        (s("name"), JsonValue::Str(s("later"))),
    ]);
    let expected = NuValue::Row(vec![
        (s("name"), NuValue::Str(s("later"))),
        (s("ids"), NuValue::Table(vec![NuValue::Int(IntValue::Small(1)), NuValue::Nothing])),
    ]);
    assert_eq!(convert_json_value_to_nu_value(&doc), Ok(expected));
}

#[test]
fn shell_values_become_json() {
    assert_eq!(convert_nu_value_to_json_value(&NuValue::Filesize(1000)), Ok(JsonValue::Number(JsonNumber::Int(1000))));
    assert_eq!(
        convert_nu_value_to_json_value(&NuValue::Filesize(u64::MAX)),
        Ok(JsonValue::Number(JsonNumber::UInt(u64::MAX)))
    );
    assert_eq!(convert_nu_value_to_json_value(&NuValue::Duration(s("3sec"))), Ok(JsonValue::Str(s("3sec"))));
    assert_eq!(convert_nu_value_to_json_value(&NuValue::Date(s("2021-01-01"))), Ok(JsonValue::Str(s("2021-01-01"))));
    assert_eq!(convert_nu_value_to_json_value(&NuValue::FilePath(s("/tmp/x"))), Ok(JsonValue::Str(s("/tmp/x"))));
    assert_eq!(convert_nu_value_to_json_value(&NuValue::GlobPattern(s("*.rs"))), Ok(JsonValue::Str(s("*.rs"))));
    assert_eq!(convert_nu_value_to_json_value(&NuValue::EndOfStream), Ok(JsonValue::Null));
    assert_eq!(convert_nu_value_to_json_value(&NuValue::BeginningOfStream), Ok(JsonValue::Null));
    assert_eq!(convert_nu_value_to_json_value(&NuValue::Block), Ok(JsonValue::Null));
    assert_eq!(convert_nu_value_to_json_value(&NuValue::Range), Ok(JsonValue::Null));
    assert_eq!(convert_nu_value_to_json_value(&NuValue::Nothing), Ok(JsonValue::Null));
    assert_eq!(
        convert_nu_value_to_json_value(&NuValue::Binary(vec![0, 1, 255])),
        Ok(JsonValue::Array(vec![
            JsonValue::Number(JsonNumber::Float(0f64.to_bits())),
            JsonValue::Number(JsonNumber::Float(1f64.to_bits())),
            JsonValue::Number(JsonNumber::Float(255f64.to_bits())),
        ]))
    );
    assert_eq!(
        convert_nu_value_to_json_value(&NuValue::ColumnPath(vec![
            PathMember::Str(s("a")),
            PathMember::Int(IntValue::Small(3)),
        ])),
        Ok(JsonValue::Array(vec![JsonValue::Str(s("a")), JsonValue::Number(JsonNumber::Int(3))]))
    );
}

#[test]
fn a_whole_number_beyond_i64_does_not_convert() {
    let big = s("123456789012345678901234567890");
    assert_eq!(
        convert_nu_value_to_json_value(&NuValue::Int(IntValue::Big(big.clone()))),
        Err(CliError::Runtime(format!("Could not get value as number {}", big)))
    );
    assert_eq!(
        convert_nu_value_to_json_value(&NuValue::ColumnPath(vec![
            PathMember::Str(s("a")),
            PathMember::Int(IntValue::Big(s("99999999999999999999"))),
        ])),
        Err(CliError::Runtime(s("Could not get value as number 99999999999999999999")))
    );
}

#[test]
fn a_decimal_leaves_at_f32_precision() {
    assert_eq!(
        convert_nu_value_to_json_value(&NuValue::Decimal(0.1f64.to_bits())),
        Ok(JsonValue::Number(JsonNumber::Float(0.10000000149011612f64.to_bits())))
    );
    assert_eq!(
        convert_nu_value_to_json_value(&NuValue::Decimal(0.25f64.to_bits())),
        Ok(JsonValue::Number(JsonNumber::Float(0.25f64.to_bits())))
    );
    assert_eq!(
        convert_nu_value_to_json_value(&NuValue::Decimal((-0.0f64).to_bits())),
        Ok(JsonValue::Number(JsonNumber::Float((-0.0f64).to_bits())))
    );
    assert_eq!(
        convert_nu_value_to_json_value(&NuValue::Decimal(1e-50f64.to_bits())),
        Ok(JsonValue::Number(JsonNumber::Float(0.0f64.to_bits())))
    );
}

#[test]
fn a_decimal_beyond_f32_does_not_convert() {
    assert_eq!(convert_nu_value_to_json_value(&NuValue::Decimal(1e39f64.to_bits())), Err(decimal_error()));
    assert_eq!(convert_nu_value_to_json_value(&NuValue::Decimal((-1e39f64).to_bits())), Err(decimal_error()));
    assert_eq!(
        convert_nu_value_to_json_value(&NuValue::Decimal(f64::INFINITY.to_bits())),
        Err(decimal_error())
    );
}

#[test]
fn the_first_failure_in_a_table_is_reported() {
    let table = NuValue::Table(vec![
        NuValue::Boolean(true),
        NuValue::Error(CliError::Unexpected(s("first"))),
        NuValue::Int(IntValue::Big(s("1000000000000000000000000000000"))),
    ]);
    assert_eq!(convert_nu_value_to_json_value(&table), Err(CliError::Unexpected(s("first"))));
}

#[test]
fn the_first_failure_in_a_row_is_reported() {
    let row = NuValue::Row(vec![
        (s("ok"), NuValue::Str(s("x"))),
        (s("bad"), NuValue::Decimal(f64::NAN.to_bits())),
        (s("worse"), NuValue::Error(CliError::Runtime(s("later")))),
    ]);
    assert_eq!(
        convert_nu_value_to_json_value(&row),
        Err(CliError::Labeled(
            s("Could not convert value to decimal number"),
            s("could not convert to decimal")
        ))
    );
}

#[test]
fn rows_become_objects_with_later_columns_replacing_earlier() {
    let row = NuValue::Row(vec![
        (s("a"), NuValue::Boolean(false)),
        (s("b"), NuValue::Str(s("x"))),
        (s("a"), NuValue::Boolean(true)),
    ]);
    assert_eq!(
        convert_nu_value_to_json_value(&row),
        Ok(JsonValue::Object(vec![(s("a"), JsonValue::Bool(true)), (s("b"), JsonValue::Str(s("x")))]))
    );
}

#[test]
fn a_well_formed_document_survives_a_round_trip() {
    let doc = JsonValue::Object(vec![
        (s("id"), JsonValue::Number(JsonNumber::Int(10))),
        (s("ratio"), JsonValue::Number(JsonNumber::Float(0.5f64.to_bits()))),
        (s("third"), JsonValue::Number(JsonNumber::Float(((1.0f32 / 3.0) as f64).to_bits()))),
        (
            s("tags"),
            JsonValue::Array(vec![JsonValue::Str(s("a")), JsonValue::Bool(false), JsonValue::Null]),
        ),
        (s("nested"), JsonValue::Object(vec![(s("k"), JsonValue::Str(s("v")))])),
    ]);
    let nu = convert_json_value_to_nu_value(&doc).unwrap();
    assert_eq!(convert_nu_value_to_json_value(&nu), Ok(doc));
}
