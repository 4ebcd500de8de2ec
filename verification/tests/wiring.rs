//! Declaration-time behavior: naming collisions, duplicate bindings, and
//! getter synthesis on attribute sets.

use capwire::context::DelegationTable;
use capwire::model::{AttrValue, Attribute, Behavior, Capability, DeclError, Provider};
use capwire::registry::Registry;
use capwire::synthesis::{synthesize_getter, SynthOutcome};

fn attr(name: &str, value: &str) -> Attribute {
    Attribute { name: String::from(name), value: AttrValue::Text(String::from(value)) }
}

#[test]
fn duplicate_capability_rejected() {
    let mut reg = Registry::new();
    assert_eq!(
        reg.declare_capability(Capability { name: String::from("Greet"), accessor_attr: None }),
        Ok(())
    );
    assert_eq!(
        reg.declare_capability(Capability {
            name: String::from("Greet"),
            accessor_attr: Some(String::from("greeting")),
        }),
        Err(DeclError::DuplicateCapability)
    );
    assert_eq!(reg.capabilities.len(), 1);
}

#[test]
fn duplicate_provider_rejected() {
    let mut reg = Registry::new();
    let p = Provider {
        name: String::from("GreetHello"),
        implements: String::from("Greet"),
        requires: vec![String::from("HasName")],
        behavior: Behavior::Format {
            prefix: String::from("Hello, "),
            uses: String::from("HasName"),
            suffix: String::from("!"),
        },
    };
    assert_eq!(reg.declare_provider(p), Ok(()));
    let q = Provider {
        name: String::from("GreetHello"),
        implements: String::from("Salute"),
        requires: vec![],
        behavior: Behavior::ReadAttr { attr: String::from("name") },
    };
    assert_eq!(reg.declare_provider(q), Err(DeclError::DuplicateProvider));
    assert_eq!(reg.providers.len(), 1);
}

#[test]
fn provider_must_declare_what_it_reads() {
    let mut reg = Registry::new();
    let p = Provider {
        name: String::from("GreetHello"),
        implements: String::from("Greet"),
        requires: vec![],
        behavior: Behavior::Format {
            prefix: String::from("Hello, "),
            uses: String::from("HasName"),
            suffix: String::from("!"),
        },
    };
    assert_eq!(reg.declare_provider(p), Err(DeclError::UndeclaredRequirement));
    assert_eq!(reg.providers.len(), 0);
}

#[test]
fn duplicate_binding_rejected() {
    let mut table = DelegationTable::new();
    assert_eq!(table.bind(String::from("Greet"), String::from("GreetHello")), Ok(()));
    assert_eq!(
        table.bind(String::from("Greet"), String::from("GreetLoud")),
        Err(DeclError::DuplicateBinding)
    );
    assert_eq!(table.bindings.len(), 1);
    assert_eq!(table.bindings[0].provider, String::from("GreetHello"));
}

#[test]
fn getter_exact_match() {
    let attrs = vec![attr("age", "41"), attr("name", "Alice")];
    match synthesize_getter(&attrs, &String::from("name")) {
        SynthOutcome::Getter(i) => assert_eq!(i, 1),
        other => panic!("expected a getter, got {:?}", other),
    }
}

#[test]
fn getter_requires_exact_name() {
    let attrs = vec![attr("name", "Alice")];
    assert_eq!(synthesize_getter(&attrs, &String::from("Name")), SynthOutcome::NoMatch);
    assert_eq!(synthesize_getter(&attrs, &String::from("full_name")), SynthOutcome::NoMatch);
}

#[test]
fn getter_refuses_ambiguity() {
    let attrs = vec![attr("name", "Alice"), attr("name", "Alyssa")];
    assert_eq!(synthesize_getter(&attrs, &String::from("name")), SynthOutcome::Ambiguous);
}

#[test]
fn getter_requires_displayable_value() {
    let attrs = vec![Attribute {
        name: String::from("name"),
        value: AttrValue::Binary(vec![0x41, 0x6c]),
    }];
    assert_eq!(synthesize_getter(&attrs, &String::from("name")), SynthOutcome::NoMatch);
}

#[test]
fn getter_picks_displayable_value_among_same_names() {
    let attrs = vec![
        Attribute { name: String::from("name"), value: AttrValue::Binary(vec![1]) },
        attr("name", "Alice"),
    ];
    match synthesize_getter(&attrs, &String::from("name")) {
        SynthOutcome::Getter(i) => assert_eq!(i, 1),
        other => panic!("expected a getter, got {:?}", other),
    }
}
