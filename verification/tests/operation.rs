//! End-to-end tests of the operation binding lifecycle: construction,
//! propagation, chaining, invalid updates and disconnect.

use reactive_op::{BindError, BinaryOperation, NumericOperation, PropertyValue, ReactiveEntity};

type Entity = ReactiveEntity<fn(i64) -> i64, fn(i64, i64) -> i64>;

fn entity_with(props: &[(&str, i64)]) -> Entity {
    let mut e: Entity = ReactiveEntity::new("numeric_operation".to_string());
    for (name, value) in props {
        assert!(e.add_property(name, PropertyValue::Int(*value)));
    }
    e
}

#[test]
fn unary_scenario_doubles_input() {
    // lhs = 0, result = 0; f(x) = x * 2; set_input(5) -> result() == 10.
    let mut e = entity_with(&[("lhs", 0), ("result", 0)]);
    let op = NumericOperation::new(&mut e, |x| x * 2).unwrap();
    assert_eq!(op.result(&e), PropertyValue::Int(0));
    op.lhs(&mut e, PropertyValue::Int(5));
    assert_eq!(op.result(&e), PropertyValue::Int(10));
    // after disconnect, set_input(7) leaves the result at 10
    op.disconnect(&mut e);
    op.lhs(&mut e, PropertyValue::Int(7));
    assert_eq!(op.result(&e), PropertyValue::Int(10));
    assert_eq!(e.get("lhs"), Some(PropertyValue::Int(7)));
}

#[test]
fn latest_write_wins() {
    let mut e = entity_with(&[("lhs", 0), ("result", 0)]);
    let op = NumericOperation::new(&mut e, |x| x + 1).unwrap();
    for x in [3, 9, -4, 12] {
        op.lhs(&mut e, PropertyValue::Int(x));
    }
    assert_eq!(op.result(&e), PropertyValue::Int(13));
}

#[test]
fn disconnect_is_idempotent() {
    let mut e = entity_with(&[("lhs", 0), ("result", 0)]);
    let op = NumericOperation::new(&mut e, |x| x * 2).unwrap();
    op.lhs(&mut e, PropertyValue::Int(2));
    op.disconnect(&mut e);
    op.disconnect(&mut e);
    op.lhs(&mut e, PropertyValue::Int(21));
    assert_eq!(op.result(&e), PropertyValue::Int(4));
    assert_eq!(e.invalid_count(), 0);
}

#[test]
fn bind_fails_without_target_property() {
    let mut e = entity_with(&[("lhs", 1)]);
    let r = NumericOperation::new(&mut e, |x| x * 2);
    assert_eq!(r.unwrap_err(), BindError::MissingProperty);
    // the failed construction left no observer: a write changes only the
    // written property and nothing is diagnosed
    assert!(e.set_value("lhs", PropertyValue::Int(5)));
    assert_eq!(e.get("lhs"), Some(PropertyValue::Int(5)));
    assert_eq!(e.invalid_count(), 0);
}

#[test]
fn bind_fails_without_input_property() {
    let mut e = entity_with(&[("result", 0)]);
    let r = NumericOperation::new(&mut e, |x| x * 2);
    assert_eq!(r.unwrap_err(), BindError::MissingProperty);
    assert!(e.set_value("result", PropertyValue::Int(3)));
    assert_eq!(e.get("result"), Some(PropertyValue::Int(3)));
}

#[test]
fn bind_succeeds_regardless_of_declaration_order() {
    // declaring the result property before the input changes nothing
    let mut e = entity_with(&[("result", 0), ("lhs", 0)]);
    let op = NumericOperation::new(&mut e, |x| x * 2).unwrap();
    op.lhs(&mut e, PropertyValue::Int(5));
    assert_eq!(op.result(&e), PropertyValue::Int(10));
}

#[test]
fn cyclic_wiring_is_cut_off() {
    // a property feeding itself would loop forever in an unguarded
    // runtime; here the cascade stops at the depth budget (one more than
    // the subscription count), so with one subscription the transform is
    // applied exactly twice
    let mut e = entity_with(&[("x", 0)]);
    let op = NumericOperation::bind(&mut e, |v| v + 1, "x", "x").unwrap();
    e.set_value("x", PropertyValue::Int(0));
    assert_eq!(e.get("x"), Some(PropertyValue::Int(2)));
    op.disconnect(&mut e);
    e.set_value("x", PropertyValue::Int(10));
    assert_eq!(e.get("x"), Some(PropertyValue::Int(10)));
}

#[test]
fn chained_bindings_compose() {
    let mut e = entity_with(&[("source", 0), ("middle", 0), ("sink", 0)]);
    let first = NumericOperation::bind(&mut e, |x| x * 2, "source", "middle").unwrap();
    let second = NumericOperation::bind(&mut e, |x| x + 100, "middle", "sink").unwrap();
    e.set_value("source", PropertyValue::Int(7));
    assert_eq!(e.get("middle"), Some(PropertyValue::Int(14)));
    assert_eq!(e.get("sink"), Some(PropertyValue::Int(114)));
    // disconnecting the second half stops the chain there
    second.disconnect(&mut e);
    e.set_value("source", PropertyValue::Int(8));
    assert_eq!(e.get("middle"), Some(PropertyValue::Int(16)));
    assert_eq!(e.get("sink"), Some(PropertyValue::Int(114)));
    first.disconnect(&mut e);
}

#[test]
fn invalid_update_is_dropped_and_counted() {
    let mut e = entity_with(&[("lhs", 0), ("result", 0)]);
    let op = NumericOperation::new(&mut e, |x| x * 2).unwrap();
    op.lhs(&mut e, PropertyValue::Int(4));
    assert_eq!(op.result(&e), PropertyValue::Int(8));
    op.lhs(&mut e, PropertyValue::Bool(true));
    // the offending update is dropped: the target keeps its value, the
    // input holds the raw value, and the drop is diagnosed
    assert_eq!(op.result(&e), PropertyValue::Int(8));
    assert_eq!(e.get("lhs"), Some(PropertyValue::Bool(true)));
    assert_eq!(e.invalid_count(), 1);
    // a later valid write propagates again
    op.lhs(&mut e, PropertyValue::Int(6));
    assert_eq!(op.result(&e), PropertyValue::Int(12));
}

#[test]
fn binary_scenario_waits_for_both_sides() {
    // f(a, b) = a + b; lhs = 3 alone emits nothing, rhs = 4 yields 7.
    let mut e = entity_with(&[("lhs", 0), ("rhs", 0), ("result", 0)]);
    let op = BinaryOperation::new(&mut e, |a, b| a + b).unwrap();
    op.lhs(&mut e, PropertyValue::Int(3));
    assert_eq!(op.result(&e), PropertyValue::Int(0));
    op.rhs(&mut e, PropertyValue::Int(4));
    assert_eq!(op.result(&e), PropertyValue::Int(7));
    // each further change to either side recomputes with the latest pair
    op.lhs(&mut e, PropertyValue::Int(10));
    assert_eq!(op.result(&e), PropertyValue::Int(14));
}

#[test]
fn binary_disconnect_stops_propagation() {
    let mut e = entity_with(&[("lhs", 0), ("rhs", 0), ("result", 0)]);
    let op = BinaryOperation::new(&mut e, |a, b| a * b).unwrap();
    op.lhs(&mut e, PropertyValue::Int(6));
    op.rhs(&mut e, PropertyValue::Int(7));
    assert_eq!(op.result(&e), PropertyValue::Int(42));
    op.disconnect(&mut e);
    op.disconnect(&mut e);
    op.lhs(&mut e, PropertyValue::Int(100));
    assert_eq!(op.result(&e), PropertyValue::Int(42));
}

#[test]
fn binary_bind_reports_missing_property() {
    let mut e = entity_with(&[("lhs", 0), ("result", 0)]);
    let r = BinaryOperation::new(&mut e, |a, b| a + b);
    assert_eq!(r.unwrap_err(), BindError::MissingProperty);
}

#[test]
fn duplicate_property_names_are_rejected() {
    let mut e: Entity = ReactiveEntity::new("numeric_operation".to_string());
    assert!(e.add_property("lhs", PropertyValue::Int(0)));
    assert!(!e.add_property("lhs", PropertyValue::Int(1)));
    assert_eq!(e.get("lhs"), Some(PropertyValue::Int(0)));
}

#[test]
fn unknown_property_reads_and_writes() {
    let mut e = entity_with(&[("lhs", 0)]);
    assert_eq!(e.get("nope"), None);
    assert!(!e.set_value("nope", PropertyValue::Int(1)));
    assert_eq!(e.get("lhs"), Some(PropertyValue::Int(0)));
}

#[test]
fn declared_type_names_the_entity() {
    let mut e = entity_with(&[("lhs", 0), ("result", 0)]);
    let op = NumericOperation::new(&mut e, |x| x).unwrap();
    assert_eq!(op.declared_type(&e), "numeric_operation");
    assert_eq!(op.handle_id, op.target);
}

#[test]
fn release_disconnects_before_the_binding_goes() {
    let mut e = entity_with(&[("lhs", 0), ("result", 0)]);
    let op = NumericOperation::new(&mut e, |x| x - 1).unwrap();
    op.lhs(&mut e, PropertyValue::Int(9));
    assert_eq!(op.result(&e), PropertyValue::Int(8));
    op.release(&mut e);
    // the binding is gone; its observer went with it
    e.set_value("lhs", PropertyValue::Int(50));
    assert_eq!(e.get("result"), Some(PropertyValue::Int(8)));
}

#[test]
fn entity_teardown_disconnects_every_binding() {
    let mut e = entity_with(&[("lhs", 0), ("rhs", 0), ("result", 0)]);
    let unary = NumericOperation::bind(&mut e, |x| x * 3, "lhs", "result").unwrap();
    let binary = BinaryOperation::new(&mut e, |a, b| a + b).unwrap();
    unary.lhs(&mut e, PropertyValue::Int(2));
    assert_eq!(e.get("result"), Some(PropertyValue::Int(6)));
    e.disconnect_all();
    unary.lhs(&mut e, PropertyValue::Int(5));
    binary.rhs(&mut e, PropertyValue::Int(5));
    assert_eq!(e.get("result"), Some(PropertyValue::Int(6)));
}
