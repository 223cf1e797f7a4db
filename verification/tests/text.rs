use syrup::de::{IntDescription, SyrupKind};
use syrup::text::write_decimal_text;

#[test]
fn kinds_as_text() {
    assert_eq!(SyrupKind::Bool.text(), "bool");
    assert_eq!(SyrupKind::F32.text(), "f32");
    assert_eq!(SyrupKind::F64.text(), "f64");
    assert_eq!(SyrupKind::Int { desc: None }.text(), "int");
    assert_eq!(SyrupKind::int_kind::<i32>().text(), "i4");
    assert_eq!(SyrupKind::int_kind::<u128>().text(), "u16");
    assert_eq!(SyrupKind::Bytes { length: Some(32) }.text(), "[u8; 32]");
    assert_eq!(SyrupKind::Bytes { length: None }.text(), "[u8]");
    assert_eq!(SyrupKind::String.text(), "string");
    assert_eq!(SyrupKind::Symbol(Some("op:abort")).text(), "Symbol(op:abort)");
    assert_eq!(SyrupKind::Symbol(None).text(), "Symbol");
    assert_eq!(SyrupKind::List { length: Some(0) }.text(), "list(0)");
    assert_eq!(SyrupKind::List { length: None }.text(), "list");
    assert_eq!(SyrupKind::Record { label: Some("desc:export") }.text(), "record<'desc:export>");
    assert_eq!(SyrupKind::Record { label: None }.text(), "record");
    assert_eq!(SyrupKind::SetOf.text(), "set");
    assert_eq!(SyrupKind::Dictionary.text(), "dictionary");
    assert_eq!(SyrupKind::Unknown("thing").text(), "Unknown(thing)");
}

#[test]
fn int_descriptions_as_text() {
    assert_eq!(IntDescription::new(true, 8).text(), "i8");
    assert_eq!(IntDescription::describe::<u16>().text(), "u2");
}

#[test]
fn decimal_text() {
    let mut s = String::from("n=");
    write_decimal_text(0, &mut s);
    assert_eq!(s, "n=0");
    let mut s = String::new();
    write_decimal_text(1234567890, &mut s);
    assert_eq!(s, "1234567890");
    let mut s = String::new();
    write_decimal_text(usize::MAX, &mut s);
    assert_eq!(s, usize::MAX.to_string());
}
