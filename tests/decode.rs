use serde_dynamo_wasm::de::attribute_value::{
    self, I128_RANGE, I16_RANGE, I32_RANGE, I64_RANGE, I8_RANGE, U128_RANGE, U16_RANGE,
    U32_RANGE, U64_RANGE, U8_RANGE,
};
use serde_dynamo_wasm::de::{Deserializer, ObjectAccess};
use serde_dynamo_wasm::number::{parse_signed, parse_unsigned};
use serde_dynamo_wasm::value::Value;
use serde_dynamo_wasm::Error;

fn text(s: &str) -> Value {
    Value::Str(s.to_string())
}

fn object(entries: Vec<(&str, Value)>) -> Value {
    Value::Object(entries.into_iter().map(|(k, v)| (k.to_string(), v)).collect())
}

fn tagged(tag: &str, payload: &str) -> Value {
    object(vec![(tag, text(payload))])
}

fn leaf(tag: &str, payload: &str) -> attribute_value::Deserializer {
    attribute_value::Deserializer::from(tagged(tag, payload))
}

fn custom(msg: &str) -> Error {
    Error::Custom(msg.to_string())
}

#[test]
fn signed_widths_read_their_bounds() {
    assert_eq!(leaf("N", "-128").deserialize_i8(), Ok(i8::MIN));
    assert_eq!(leaf("N", "127").deserialize_i8(), Ok(i8::MAX));
    assert_eq!(leaf("N", "-32768").deserialize_i16(), Ok(i16::MIN));
    assert_eq!(leaf("N", "32767").deserialize_i16(), Ok(i16::MAX));
    assert_eq!(leaf("N", "-2147483648").deserialize_i32(), Ok(i32::MIN));
    assert_eq!(leaf("N", "2147483647").deserialize_i32(), Ok(i32::MAX));
    assert_eq!(leaf("N", "-9223372036854775808").deserialize_i64(), Ok(i64::MIN));
    assert_eq!(leaf("N", "9223372036854775807").deserialize_i64(), Ok(i64::MAX));
    assert_eq!(
        leaf("N", "-170141183460469231731687303715884105728").deserialize_i128(),
        Ok(i128::MIN)
    );
    assert_eq!(
        leaf("N", "170141183460469231731687303715884105727").deserialize_i128(),
        Ok(i128::MAX)
    );
}

#[test]
fn unsigned_widths_read_their_bounds() {
    assert_eq!(leaf("N", "0").deserialize_u8(), Ok(u8::MIN));
    assert_eq!(leaf("N", "255").deserialize_u8(), Ok(u8::MAX));
    assert_eq!(leaf("N", "0").deserialize_u16(), Ok(u16::MIN));
    assert_eq!(leaf("N", "65535").deserialize_u16(), Ok(u16::MAX));
    assert_eq!(leaf("N", "0").deserialize_u32(), Ok(u32::MIN));
    assert_eq!(leaf("N", "4294967295").deserialize_u32(), Ok(u32::MAX));
    assert_eq!(leaf("N", "0").deserialize_u64(), Ok(u64::MIN));
    assert_eq!(leaf("N", "18446744073709551615").deserialize_u64(), Ok(u64::MAX));
    assert_eq!(leaf("N", "0").deserialize_u128(), Ok(u128::MIN));
    assert_eq!(
        leaf("N", "340282366920938463463374607431768211455").deserialize_u128(),
        Ok(u128::MAX)
    );
}

#[test]
fn bounds_round_trip_through_their_text() {
    assert_eq!(leaf("N", &i64::MIN.to_string()).deserialize_i64(), Ok(i64::MIN));
    assert_eq!(leaf("N", &u32::MAX.to_string()).deserialize_u32(), Ok(u32::MAX));
    assert_eq!(leaf("N", &i128::MIN.to_string()).deserialize_i128(), Ok(i128::MIN));
}

#[test]
fn just_past_the_bounds_fails() {
    assert_eq!(leaf("N", "128").deserialize_i8(), Err(custom(I8_RANGE)));
    assert_eq!(leaf("N", "-129").deserialize_i8(), Err(custom(I8_RANGE)));
    assert_eq!(leaf("N", "32768").deserialize_i16(), Err(custom(I16_RANGE)));
    assert_eq!(leaf("N", "-2147483649").deserialize_i32(), Err(custom(I32_RANGE)));
    assert_eq!(leaf("N", "9223372036854775808").deserialize_i64(), Err(custom(I64_RANGE)));
    assert_eq!(
        leaf("N", "170141183460469231731687303715884105728").deserialize_i128(),
        Err(custom(I128_RANGE))
    );
    assert_eq!(leaf("N", "256").deserialize_u8(), Err(custom(U8_RANGE)));
    assert_eq!(leaf("N", "-1").deserialize_u16(), Err(custom(U16_RANGE)));
    assert_eq!(leaf("N", "4294967296").deserialize_u32(), Err(custom(U32_RANGE)));
    assert_eq!(leaf("N", "18446744073709551616").deserialize_u64(), Err(custom(U64_RANGE)));
    assert_eq!(
        leaf("N", "340282366920938463463374607431768211456").deserialize_u128(),
        Err(custom(U128_RANGE))
    );
}

#[test]
fn not_a_number_fails_for_every_width() {
    let n = "not-a-number";
    assert_eq!(leaf("N", n).deserialize_i8(), Err(custom(I8_RANGE)));
    assert_eq!(leaf("N", n).deserialize_i16(), Err(custom(I16_RANGE)));
    assert_eq!(leaf("N", n).deserialize_i32(), Err(custom(I32_RANGE)));
    assert_eq!(leaf("N", n).deserialize_i64(), Err(custom(I64_RANGE)));
    assert_eq!(leaf("N", n).deserialize_i128(), Err(custom(I128_RANGE)));
    assert_eq!(leaf("N", n).deserialize_u8(), Err(custom(U8_RANGE)));
    assert_eq!(leaf("N", n).deserialize_u16(), Err(custom(U16_RANGE)));
    assert_eq!(leaf("N", n).deserialize_u32(), Err(custom(U32_RANGE)));
    assert_eq!(leaf("N", n).deserialize_u64(), Err(custom(U64_RANGE)));
    assert_eq!(leaf("N", n).deserialize_u128(), Err(custom(U128_RANGE)));
}

#[test]
fn number_text_grammar() {
    assert_eq!(leaf("N", "+42").deserialize_u64(), Ok(42));
    assert_eq!(leaf("N", "+42").deserialize_i32(), Ok(42));
    assert_eq!(leaf("N", "-0").deserialize_i32(), Ok(0));
    assert_eq!(leaf("N", "007").deserialize_u8(), Ok(7));
    assert_eq!(leaf("N", "-0").deserialize_u32(), Err(custom(U32_RANGE)));
    assert_eq!(leaf("N", "").deserialize_i64(), Err(custom(I64_RANGE)));
    assert_eq!(leaf("N", "+").deserialize_u64(), Err(custom(U64_RANGE)));
    assert_eq!(leaf("N", "-").deserialize_i64(), Err(custom(I64_RANGE)));
    assert_eq!(leaf("N", "1.5").deserialize_i64(), Err(custom(I64_RANGE)));
    assert_eq!(leaf("N", " 1").deserialize_i64(), Err(custom(I64_RANGE)));
}

#[test]
fn string_node_gives_its_text() {
    assert_eq!(leaf("S", "hello").deserialize_string(), Ok("hello".to_string()));
    assert_eq!(leaf("S", "").deserialize_string(), Ok(String::new()));
}

#[test]
fn number_node_into_string_fails() {
    assert_eq!(leaf("N", "1").deserialize_string(), Err(Error::UnexpectedType("S")));
}

#[test]
fn string_node_into_number_fails() {
    assert_eq!(leaf("S", "1").deserialize_i32(), Err(Error::UnexpectedType("N")));
}

#[test]
fn bare_value_is_unsupported() {
    let d = attribute_value::Deserializer::from(text("hello"));
    assert_eq!(d.deserialize_string(), Err(Error::UnsupportedType));
    let d = attribute_value::Deserializer::from(Value::Undefined);
    assert_eq!(d.deserialize_u8(), Err(Error::UnsupportedType));
}

#[test]
fn empty_object_lacks_the_tag() {
    let d = attribute_value::Deserializer::from(object(vec![]));
    assert_eq!(d.deserialize_string(), Err(Error::UnexpectedType("S")));
    let d = attribute_value::Deserializer::from(object(vec![]));
    assert_eq!(d.deserialize_i64(), Err(Error::UnexpectedType("N")));
}

#[test]
fn tag_holding_no_string_is_unexpected_value() {
    let node = || object(vec![("N", Value::Number("5".to_string()))]);
    let d = attribute_value::Deserializer::from(node());
    assert_eq!(d.deserialize_i64(), Err(Error::UnexpectedValue(node())));
    let node = || object(vec![("S", Value::Undefined)]);
    let d = attribute_value::Deserializer::from(node());
    assert_eq!(d.deserialize_string(), Err(Error::UnexpectedValue(node())));
    let node = || object(vec![("S", object(vec![("S", text("x"))]))]);
    let d = attribute_value::Deserializer::from(node());
    assert_eq!(d.deserialize_string(), Err(Error::UnexpectedValue(node())));
}

#[test]
fn first_entry_of_a_repeated_tag_wins() {
    let d = attribute_value::Deserializer::from(object(vec![("S", text("a")), ("S", text("b"))]));
    assert_eq!(d.deserialize_string(), Ok("a".to_string()));
}

#[test]
fn number_payload_for_floats_is_the_raw_text() {
    let d = leaf("N", "1.7976931348623157e308");
    assert_eq!(
        d.deserialize_from_attribute_value("N"),
        Ok("1.7976931348623157e308".to_string())
    );
}

static RECORD: [&str; 2] = ["s", "n_i64"];
static WIDE: [&str; 1] = ["n_u128"];
static THREE: [&str; 3] = ["a", "b", "c"];

fn walk(doc: Value, fields: &'static [&'static str]) -> ObjectAccess {
    Deserializer::from(doc).deserialize_struct(fields).unwrap()
}

#[test]
fn record_with_string_and_i64() {
    let doc = object(vec![("s", tagged("S", "Example")), ("n_i64", tagged("N", "9223372036854775807"))]);
    let mut a = walk(doc, &RECORD);
    assert_eq!(a.next_key(), Some("s"));
    assert_eq!(a.next_value().deserialize_string(), Ok("Example".to_string()));
    assert_eq!(a.next_key(), Some("n_i64"));
    assert_eq!(a.next_value().deserialize_i64(), Ok(9223372036854775807));
    assert_eq!(a.next_key(), None);
}

#[test]
fn record_with_u128_max() {
    let doc = object(vec![("n_u128", tagged("N", "340282366920938463463374607431768211455"))]);
    let mut a = walk(doc, &WIDE);
    assert_eq!(a.next_key(), Some("n_u128"));
    assert_eq!(a.next_value().deserialize_u128(), Ok(u128::MAX));
    assert_eq!(a.next_key(), None);
}

#[test]
fn absent_fields_are_skipped() {
    let doc = object(vec![("c", tagged("S", "x"))]);
    let mut a = walk(doc, &THREE);
    assert_eq!(a.next_key(), Some("c"));
    assert_eq!(a.next_value().deserialize_string(), Ok("x".to_string()));
    assert_eq!(a.next_key(), None);
    let mut b = walk(object(vec![]), &THREE);
    assert_eq!(b.next_key(), None);
}

#[test]
fn undefined_entry_counts_as_present() {
    let doc = object(vec![("b", Value::Undefined)]);
    let mut a = walk(doc, &THREE);
    assert_eq!(a.next_key(), Some("b"));
    assert_eq!(a.next_value().deserialize_string(), Err(Error::UnsupportedType));
    assert_eq!(a.next_key(), None);
}

#[test]
fn field_with_bare_value_is_unsupported() {
    let doc = object(vec![("s", text("Example")), ("n_i64", object(vec![]))]);
    let mut a = walk(doc, &RECORD);
    assert_eq!(a.next_key(), Some("s"));
    assert_eq!(a.next_value().deserialize_string(), Err(Error::UnsupportedType));
    assert_eq!(a.next_key(), Some("n_i64"));
    assert_eq!(a.next_value().deserialize_i64(), Err(Error::UnexpectedType("N")));
}

#[test]
fn document_must_be_an_object() {
    assert!(matches!(
        Deserializer::from(text("x")).deserialize_struct(&RECORD),
        Err(Error::UnsupportedType)
    ));
    assert!(matches!(
        Deserializer::from(Value::Null).deserialize_struct(&RECORD),
        Err(Error::UnsupportedType)
    ));
}

#[test]
fn object_access_starts_at_the_first_field() {
    let mut a = ObjectAccess::new(object(vec![("a", tagged("N", "1"))]), &THREE);
    assert_eq!(a.next_key(), Some("a"));
    assert_eq!(a.next_value().deserialize_u8(), Ok(1));
}

fn decode_record(doc: &Value) -> (Result<String, Error>, Result<i64, Error>) {
    let mut a = walk(doc.duplicate(), &RECORD);
    assert_eq!(a.next_key(), Some("s"));
    let s = a.next_value().deserialize_string();
    assert_eq!(a.next_key(), Some("n_i64"));
    let n = a.next_value().deserialize_i64();
    (s, n)
}

#[test]
fn decoding_twice_gives_the_same_result() {
    let doc = object(vec![("s", tagged("S", "Example")), ("n_i64", tagged("N", "-5"))]);
    let first = decode_record(&doc);
    let second = decode_record(&doc);
    assert_eq!(first, second);
    assert_eq!(first, (Ok("Example".to_string()), Ok(-5)));
    assert_eq!(doc, object(vec![("s", tagged("S", "Example")), ("n_i64", tagged("N", "-5"))]));
}

#[test]
fn lookups_on_values() {
    let doc = object(vec![("a", Value::Undefined), ("b", text("x"))]);
    assert_eq!(doc.get_field("a"), Value::Undefined);
    assert!(doc.has_field("a"));
    assert_eq!(doc.get_field("b"), text("x"));
    assert_eq!(doc.get_field("z"), Value::Undefined);
    assert!(!doc.has_field("z"));
    assert!(!text("x").has_field("a"));
    assert!(doc.is_object());
    assert!(Value::Undefined.is_undefined());
    assert_eq!(text("x").as_string(), Some("x".to_string()));
    assert_eq!(Value::Bool(true).as_string(), None);
    assert_eq!(doc.duplicate(), doc);
}

#[test]
fn nested_object_walks_its_fields() {
    let node = object(vec![("a", tagged("N", "-3")), ("c", tagged("S", "z"))]);
    let mut a = attribute_value::Deserializer::from(node).deserialize_struct(&THREE).unwrap();
    assert_eq!(a.next_key(), Some("a"));
    assert_eq!(a.next_value().deserialize_i8(), Ok(-3));
    assert_eq!(a.next_key(), Some("c"));
    assert_eq!(a.next_value().deserialize_string(), Ok("z".to_string()));
    assert_eq!(a.next_key(), None);
}

#[test]
fn nested_struct_needs_an_object() {
    let d = attribute_value::Deserializer::from(text("x"));
    assert!(matches!(d.deserialize_struct(&THREE), Err(Error::UnsupportedType)));
}

#[test]
fn signed_parse_in_any_range() {
    assert_eq!(parse_signed("5", 3, 9), Some(5));
    assert_eq!(parse_signed("2", 3, 9), None);
    assert_eq!(parse_signed("-0", 1, 9), None);
    assert_eq!(parse_signed("-7", -9, -3), Some(-7));
    assert_eq!(parse_signed("-2", -9, -3), None);
    assert_eq!(parse_signed("0", -9, -3), None);
    assert_eq!(parse_signed("-0", -9, 0), Some(0));
    assert_eq!(parse_signed("4", 5, 1), None);
}

#[test]
fn unsigned_parse_bounds() {
    assert_eq!(parse_unsigned("10", 10), Some(10));
    assert_eq!(parse_unsigned("11", 10), None);
    assert_eq!(parse_unsigned("+0", 0), Some(0));
    assert_eq!(parse_unsigned("-0", 10), None);
}
