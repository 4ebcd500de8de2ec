//! Slot declaration and per-context concrete binding.

use capwire::model::{AttrKind, AttrValue, Attribute, DeclError, Slot};
use capwire::registry::Registry;
use capwire::slots::slot_binding;

fn text_attr(name: &str, value: &str) -> Attribute {
    Attribute { name: String::from(name), value: AttrValue::Text(String::from(value)) }
}

#[test]
fn duplicate_slot_rejected() {
    let mut reg = Registry::new();
    assert_eq!(reg.declare_slot(Slot { name: String::from("Name") }), Ok(()));
    assert_eq!(
        reg.declare_slot(Slot { name: String::from("Name") }),
        Err(DeclError::DuplicateSlot)
    );
    assert_eq!(reg.slots.len(), 1);
}

#[test]
fn slot_binds_to_the_matching_attribute_type() {
    let attrs = vec![text_attr("name", "Alice"), Attribute {
        name: String::from("portrait"),
        value: AttrValue::Binary(vec![0xff, 0xd8]),
    }];
    assert_eq!(slot_binding(&attrs, &String::from("name")), Some(AttrKind::Text));
    assert_eq!(slot_binding(&attrs, &String::from("portrait")), Some(AttrKind::Binary));
}

#[test]
fn unbound_slot_has_no_concrete_type() {
    let attrs = vec![text_attr("name", "Alice")];
    assert_eq!(slot_binding(&attrs, &String::from("Name")), None);
    assert_eq!(slot_binding(&attrs, &String::from("full_name")), None);
}

#[test]
fn overbound_slot_is_never_guessed() {
    let attrs = vec![text_attr("name", "Alice"), text_attr("name", "Alyssa")];
    assert_eq!(slot_binding(&attrs, &String::from("name")), None);
}
