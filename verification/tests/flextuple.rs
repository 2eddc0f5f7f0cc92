use std::rc::Rc;
use rxsci::flextuple::{FlexSchema, FlexTuple};
use rxsci::FlexSchemaWrap;

#[test]
fn schema_keeps_name_handle_and_fields() {
    let mut schema = FlexSchema::new(String::from("point"));
    assert_eq!(schema.get_handle(), 0);
    schema.set_handle(1234);
    assert_eq!(schema.get_handle(), 1234);
    schema.add_int64(String::from("x"));
    schema.add_int64(String::from("y"));
    assert_eq!(schema.get_handle(), 1234);
}

#[test]
fn tuple_reads_back_what_was_added() {
    let mut schema = FlexSchema::new(String::from("s"));
    schema.set_handle(99);
    let mut t = FlexTuple::new(Rc::new(schema));
    t.add_int64(-5);
    t.add_float64(2.5f64.to_bits());
    t.add_int64(i64::MAX);
    assert_eq!(t.get_int64_at(0), -5);
    assert_eq!(f64::from_bits(t.get_float64_at(1)), 2.5);
    assert_eq!(t.get_int64_at(2), i64::MAX);
    assert_eq!(t.get_handle(), 99);
}

#[test]
fn default_tuple_has_no_handle() {
    let t = FlexTuple::default();
    assert_eq!(t.get_handle(), 0);
}

#[test]
fn schema_wrap_shares_the_schema() {
    let mut schema = FlexSchema::new(String::from("w"));
    schema.set_handle(7);
    let wrap = FlexSchemaWrap::new(Rc::new(schema));
    assert_eq!(wrap.schema().get_handle(), 7);
}

#[test]
fn tuple_tells_field_types() {
    let mut t = FlexTuple::new(Rc::new(FlexSchema::new(String::from("t"))));
    t.add_int64(1);
    t.add_float64(1.0f64.to_bits());
    assert!(t.is_int64_at(0));
    assert!(!t.is_float64_at(0));
    assert!(t.is_float64_at(1));
    assert!(!t.is_int64_at(1));
    assert!(!t.is_int64_at(2));
    assert!(!t.is_float64_at(2));
}
