use chrono::{Datelike, SubsecRound, Timelike, Utc};

use dxr::codec::{encode_array, encode_member, encode_struct, encode_value};
use dxr::decode::{decode_array, decode_member, decode_struct, decode_value};
use dxr::values::{Array, DateTime, Member, Struct, Value};
use dxr::XML_RPC_DATE_FORMAT;

fn dt_of(t: chrono::DateTime<Utc>) -> DateTime {
    DateTime::new(
        t.year() as u16,
        t.month() as u8,
        t.day() as u8,
        t.hour() as u8,
        t.minute() as u8,
        t.second() as u8,
    )
    .unwrap()
}

#[test]
fn to_value_i4() {
    let value = Value::i4(-12);
    let expected = "<value><i4>-12</i4></value>";

    assert_eq!(encode_value(&value), expected);
}

#[test]
fn from_value_i4() {
    let value = "<value><i4>-12</i4></value>";
    let expected = Value::i4(-12);

    assert_eq!(decode_value(value).unwrap(), expected);
}

#[test]
fn from_value_int() {
    let value = "<value><int>-12</int></value>";
    let expected = Value::i4(-12);

    assert_eq!(decode_value(value).unwrap(), expected);
}

#[test]
fn to_value_i8() {
    let value = Value::i8(-12);
    let expected = "<value><i8>-12</i8></value>";

    assert_eq!(encode_value(&value), expected);
}

#[test]
fn from_value_i8() {
    let value = "<value><i8>-12</i8></value>";
    let expected = Value::i8(-12);

    assert_eq!(decode_value(value).unwrap(), expected);
}

#[test]
fn to_value_boolean() {
    let value = Value::boolean(true);
    let expected = "<value><boolean>1</boolean></value>";

    assert_eq!(encode_value(&value), expected);
}

#[test]
fn from_value_boolean() {
    let value = "<value><boolean>1</boolean></value>";
    let expected = Value::boolean(true);

    assert_eq!(decode_value(value).unwrap(), expected);
}

#[test]
fn to_value_string() {
    let value = Value::string(String::from("Hello, World!"));
    let expected = "<value><string>Hello, World!</string></value>";

    assert_eq!(encode_value(&value), expected);
}

#[test]
fn from_value_string() {
    let value = "<value><string>Hello, World!</string></value>";
    let expected = Value::string(String::from("Hello, World!"));

    assert_eq!(decode_value(value).unwrap(), expected);
}

#[test]
fn to_value_double() {
    let value = Value::double(format!("{}", 1.5)).unwrap();
    let expected = "<value><double>1.5</double></value>";

    assert_eq!(encode_value(&value), expected);
}

#[test]
fn from_value_double() {
    let value = "<value><double>1.5</double></value>";
    let expected = Value::double(format!("{}", 1.5)).unwrap();

    assert_eq!(decode_value(value).unwrap(), expected);
}

#[test]
fn to_value_datetime() {
    let datetime = Utc::now();
    let datetime_str = datetime.format(XML_RPC_DATE_FORMAT).to_string();

    let value = Value::datetime(dt_of(datetime));
    let expected = format!("<value><dateTime.iso8601>{}</dateTime.iso8601></value>", datetime_str);

    assert_eq!(encode_value(&value), expected);
}

#[test]
fn from_value_datetime() {
    let datetime = Utc::now().round_subsecs(0);
    let datetime_str = datetime.format(XML_RPC_DATE_FORMAT).to_string();

    let value = format!("<value><dateTime.iso8601>{}</dateTime.iso8601></value>", datetime_str);
    let expected = Value::datetime(dt_of(datetime));

    assert_eq!(decode_value(&value).unwrap(), expected);
}

#[test]
fn to_value_base64() {
    let contents = b"you can't read this!";
    let encoded = base64::encode(contents);

    let value = Value::base64(contents.to_vec());
    let expected = format!("<value><base64>{}</base64></value>", encoded);

    assert_eq!(encode_value(&value), expected);
}

#[test]
fn from_value_base64() {
    let contents = b"you can't read this!";
    let encoded = base64::encode(contents);

    let value = format!("<value><base64>{}</base64></value>", encoded);
    let expected = Value::base64(contents.to_vec());

    assert_eq!(decode_value(&value).unwrap(), expected);
}

#[test]
fn to_struct_empty() {
    let value = Struct::from_members(vec![]);
    let expected = "<struct/>";

    assert_eq!(encode_struct(&value), expected);
}

#[test]
fn from_struct_empty() {
    let value = "<struct/>";
    let expected = Struct::from_members(vec![]);

    assert_eq!(decode_struct(value).unwrap(), expected);

    let value = "<struct></struct>";
    let expected = Struct::from_members(vec![]);

    assert_eq!(decode_struct(value).unwrap(), expected);
}

#[test]
fn to_struct_one() {
    let value = Struct::from_members(vec![Member::new(String::from("answer"), Value::i4(42))]);
    let expected = "<struct><member><name>answer</name><value><i4>42</i4></value></member></struct>";

    assert_eq!(encode_struct(&value), expected);
}

#[test]
fn from_struct_one() {
    let value = "<struct><member><name>answer</name><value><i4>42</i4></value></member></struct>";
    let expected = Struct::from_members(vec![Member::new(String::from("answer"), Value::i4(42))]);

    assert_eq!(decode_struct(value).unwrap(), expected);
}

#[test]
fn to_struct_two() {
    let value = Struct::from_members(vec![
        Member::new(String::from("answer"), Value::i4(42)),
        Member::new(
            String::from("question"),
            Value::string(String::from("The answer to life, the the universe, and everything")),
        ),
    ]);
    let expected = "<struct><member><name>answer</name><value><i4>42</i4></value></member><member><name>question</name><value><string>The answer to life, the the universe, and everything</string></value></member></struct>";

    assert_eq!(encode_struct(&value), expected);
}

#[test]
fn from_struct_two() {
    let value = "<struct><member><name>answer</name><value><i4>42</i4></value></member><member><name>question</name><value><string>The answer to life, the the universe, and everything</string></value></member></struct>";
    let expected = Struct::from_members(vec![
        Member::new(String::from("answer"), Value::i4(42)),
        Member::new(
            String::from("question"),
            Value::string(String::from("The answer to life, the the universe, and everything")),
        ),
    ]);

    assert_eq!(decode_struct(value).unwrap(), expected);
}

#[test]
fn to_member() {
    let value = Member::new(String::from("answer"), Value::i4(42));
    let expected = "<member><name>answer</name><value><i4>42</i4></value></member>";

    assert_eq!(encode_member(&value), expected);
}

#[test]
fn from_member() {
    let value = "<member><name>answer</name><value><i4>42</i4></value></member>";
    let expected = Member::new(String::from("answer"), Value::i4(42));

    assert_eq!(decode_member(value).unwrap(), expected);
}

#[test]
fn to_array_empty() {
    let value = Array::from_elements(vec![]);
    let expected = "<array><data/></array>";

    assert_eq!(encode_array(&value), expected);
}

#[test]
fn from_array_empty() {
    let value = "<array><data/></array>";
    let expected = Array::from_elements(vec![]);

    assert_eq!(decode_array(value).unwrap(), expected);

    let value = "<array><data></data></array>";
    let expected = Array::from_elements(vec![]);

    assert_eq!(decode_array(value).unwrap(), expected);
}

#[test]
fn to_array_one() {
    let value = Array::from_elements(vec![Value::i4(-12)]);
    let expected = "<array><data><value><i4>-12</i4></value></data></array>";

    assert_eq!(encode_array(&value), expected);
}

#[test]
fn from_array_one() {
    let value = "<array><data><value><i4>-12</i4></value></data></array>";
    let expected = Array::from_elements(vec![Value::i4(-12)]);

    assert_eq!(decode_array(value).unwrap(), expected);
}

#[test]
fn to_array_two() {
    let value = Array::from_elements(vec![
        Value::i4(-12),
        Value::string(String::from("minus twelve")),
    ]);
    let expected = "<array><data><value><i4>-12</i4></value><value><string>minus twelve</string></value></data></array>";

    assert_eq!(encode_array(&value), expected);
}

#[test]
fn from_array_two() {
    let value = "<array><data><value><i4>-12</i4></value><value><string>minus twelve</string></value></data></array>";
    let expected = Array::from_elements(vec![
        Value::i4(-12),
        Value::string(String::from("minus twelve")),
    ]);

    assert_eq!(decode_array(value).unwrap(), expected);
}

#[test]
fn to_value_nil() {
    let value = Value::nil();
    let expected = "<value><nil/></value>";

    assert_eq!(encode_value(&value), expected);
}

#[test]
fn from_value_nil() {
    let value = "<value><nil/></value>";
    let expected = Value::nil();

    assert_eq!(decode_value(value).unwrap(), expected);
}

#[test]
fn int_tag_aliasing() {
    let a = decode_value("<value><int>-12</int></value>").unwrap();
    let b = decode_value("<value><i4>-12</i4></value>").unwrap();
    assert_eq!(a, b);
    assert_eq!(a, Value::i4(-12));
}

#[test]
fn escaped_text_round_trip() {
    let value = Value::string(String::from("a<b&c>d"));
    let encoded = encode_value(&value);
    assert_eq!(encoded, "<value><string>a&lt;b&amp;c&gt;d</string></value>");
    assert_eq!(decode_value(&encoded).unwrap(), value);
}

#[test]
fn nested_collections_round_trip() {
    let value = Value::structure(Struct::from_members(vec![
        Member::new(
            String::from("list"),
            Value::array(Array::from_elements(vec![Value::i4(1), Value::boolean(false)])),
        ),
        Member::new(String::from("empty"), Value::structure(Struct::from_members(vec![]))),
    ]));
    let encoded = encode_value(&value);
    assert_eq!(decode_value(&encoded).unwrap(), value);
}

#[test]
fn document_prologue_is_skipped() {
    let text = "<?xml version=\"1.0\"?>\n<value><i4>7</i4></value>\n";
    assert_eq!(decode_value(text).unwrap(), Value::i4(7));
}

#[test]
fn from_value_boolean_invalid_literal() {
    assert!(decode_value("<value><boolean>2</boolean></value>").is_err());
    assert!(decode_value("<value><boolean>true</boolean></value>").is_err());
}

#[test]
fn from_value_integer_invalid() {
    assert!(decode_value("<value><i4>twelve</i4></value>").is_err());
    assert!(decode_value("<value><i4>99999999999</i4></value>").is_err());
    assert_eq!(decode_value("<value><i4>007</i4></value>").unwrap(), Value::i4(7));
}

#[test]
fn from_value_double_invalid() {
    assert!(decode_value("<value><double>not a number</double></value>").is_err());
    assert!(decode_value("<value><double>1.</double></value>").is_err());
    assert!(Value::double(String::from("abc")).is_none());
    assert!(Value::double(String::from("-12.25")).is_some());
}

#[test]
fn from_value_datetime_invalid() {
    assert!(decode_value("<value><dateTime.iso8601>garbage</dateTime.iso8601></value>").is_err());
    assert!(
        decode_value("<value><dateTime.iso8601>20240231T99:00:00</dateTime.iso8601></value>")
            .is_err()
    );
}

#[test]
fn from_value_unknown_tag() {
    assert!(decode_value("<value><froop>1</froop></value>").is_err());
}

#[test]
fn from_value_truncated_document() {
    assert!(decode_value("<value><i4>-12</i4>").is_err());
    assert!(decode_value("").is_err());
}

#[test]
fn empty_string_round_trip() {
    let value = Value::string(String::new());
    let encoded = encode_value(&value);
    assert_eq!(encoded, "<value><string/></value>");
    assert_eq!(decode_value(&encoded).unwrap(), value);
    assert_eq!(decode_value("<value><string></string></value>").unwrap(), value);
}

#[test]
fn empty_base64_round_trip() {
    let value = Value::base64(vec![]);
    let encoded = encode_value(&value);
    assert_eq!(encoded, "<value><base64/></value>");
    assert_eq!(decode_value(&encoded).unwrap(), value);
}

#[test]
fn duplicate_member_names_preserved() {
    let value = "<struct><member><name>x</name><value><i4>1</i4></value></member><member><name>x</name><value><i4>2</i4></value></member></struct>";
    let expected = Struct::from_members(vec![
        Member::new(String::from("x"), Value::i4(1)),
        Member::new(String::from("x"), Value::i4(2)),
    ]);
    assert_eq!(decode_struct(value).unwrap(), expected);
    assert_eq!(encode_struct(&expected), value);
}

#[test]
fn whitespace_between_elements_is_accepted() {
    let text = "<struct>\n  <member>\n    <name>answer</name>\n    <value><i4>42</i4></value>\n  </member>\n</struct>";
    let expected = Struct::from_members(vec![Member::new(String::from("answer"), Value::i4(42))]);
    assert_eq!(decode_struct(text).unwrap(), expected);

    let text = "<value>\n  <array>\n    <data>\n      <value><i4>1</i4></value>\n    </data>\n  </array>\n</value>";
    let expected = Value::array(Array::from_elements(vec![Value::i4(1)]));
    assert_eq!(decode_value(text).unwrap(), expected);
}

#[test]
fn impossible_calendar_dates_are_rejected() {
    assert!(decode_value("<value><dateTime.iso8601>20230231T10:00:00</dateTime.iso8601></value>")
        .is_err());
    assert!(decode_value("<value><dateTime.iso8601>20230229T10:00:00</dateTime.iso8601></value>")
        .is_err());
    assert!(decode_value("<value><dateTime.iso8601>20240229T10:00:00</dateTime.iso8601></value>")
        .is_ok());
    assert!(DateTime::new(2023, 2, 29, 0, 0, 0).is_none());
    assert!(DateTime::new(2024, 2, 29, 0, 0, 0).is_some());
    assert!(DateTime::new(2023, 4, 31, 0, 0, 0).is_none());
}

#[test]
fn whitespace_only_string_round_trip() {
    let value = Value::string(String::from("   "));
    let encoded = encode_value(&value);
    assert_eq!(encoded, "<value><string>   </string></value>");
    assert_eq!(decode_value(&encoded).unwrap(), value);

    let member = Member::new(String::from(" "), Value::i4(1));
    let encoded = encode_member(&member);
    assert_eq!(decode_member(&encoded).unwrap(), member);
}

#[test]
fn whitespace_only_collections_decode_empty() {
    assert_eq!(
        decode_struct("<struct>\n</struct>").unwrap(),
        Struct::from_members(vec![])
    );
    assert_eq!(
        decode_array("<array><data>\n  </data></array>").unwrap(),
        Array::from_elements(vec![])
    );
}
