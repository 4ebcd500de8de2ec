//! The resolution checker and capability invocation, end to end.

use capwire::context::{Context, DelegationTable};
use capwire::invoke::invoke;
use capwire::model::{AttrValue, Attribute, Behavior, Capability, Provider};
use capwire::registry::Registry;
use capwire::resolve::{check_context, Reason};

fn s(x: &str) -> String {
    String::from(x)
}

/// The greeting registry: capability `Greet`, accessor capability `HasName`
/// exposing attribute `name`, and provider `GreetHello` which requires
/// `HasName` and formats "Hello, <name>!".
fn greeting_registry() -> Registry {
    let mut reg = Registry::new();
    reg.declare_capability(Capability { name: s("Greet"), accessor_attr: None }).unwrap();
    reg.declare_capability(Capability { name: s("HasName"), accessor_attr: Some(s("name")) })
        .unwrap();
    reg.declare_provider(Provider {
        name: s("GreetHello"),
        implements: s("Greet"),
        requires: vec![s("HasName")],
        behavior: Behavior::Format { prefix: s("Hello, "), uses: s("HasName"), suffix: s("!") },
    })
    .unwrap();
    reg
}

/// A `Person` context with one attribute, exposing `Greet` through the table
/// `{Greet: GreetHello}`; `HasName` is left to getter synthesis.
fn person(attr_name: &str, attr_value: &str) -> Context {
    let mut table = DelegationTable::new();
    table.bind(s("Greet"), s("GreetHello")).unwrap();
    Context::new(
        s("Person"),
        vec![Attribute { name: s(attr_name), value: AttrValue::Text(s(attr_value)) }],
        vec![s("Greet")],
        table,
    )
}

#[test]
fn round_trip_greeting() {
    let reg = greeting_registry();
    let ctx = person("name", "Alice");
    assert!(check_context(&reg, &ctx).is_ok());
    assert_eq!(invoke(&reg, &ctx, &s("Greet")), Some(s("Hello, Alice!")));
}

#[test]
fn invocation_is_deterministic() {
    let reg = greeting_registry();
    let ctx = person("name", "Alice");
    let first = invoke(&reg, &ctx, &s("Greet"));
    let second = invoke(&reg, &ctx, &s("Greet"));
    assert_eq!(first, second);
    assert_eq!(first, Some(s("Hello, Alice!")));
}

#[test]
fn synthesized_accessor_invokes() {
    let reg = greeting_registry();
    let ctx = person("name", "Alice");
    assert_eq!(invoke(&reg, &ctx, &s("HasName")), Some(s("Alice")));
}

#[test]
fn renamed_attribute_breaks_resolution() {
    let reg = greeting_registry();
    let ctx = person("full_name", "Alice");
    let e = check_context(&reg, &ctx).unwrap_err();
    assert_eq!(e.reason, Reason::Missing);
    assert_eq!(e.capability, s("HasName"));
    assert_eq!(e.chain, vec![s("Greet"), s("HasName")]);
}

#[test]
fn missing_requirement_names_the_chain() {
    // the same wiring against a context with no attributes at all: the
    // requirement chain through Greet and GreetHello reaches HasName
    let reg = greeting_registry();
    let mut table = DelegationTable::new();
    table.bind(s("Greet"), s("GreetHello")).unwrap();
    let ctx = Context::new(s("Person"), vec![], vec![s("Greet")], table);
    let e = check_context(&reg, &ctx).unwrap_err();
    assert_eq!(e.reason, Reason::Missing);
    assert_eq!(e.capability, s("HasName"));
    assert_eq!(e.chain, vec![s("Greet"), s("HasName")]);
}

#[test]
fn binding_to_unknown_provider_is_missing() {
    let reg = greeting_registry();
    let mut table = DelegationTable::new();
    table.bind(s("Greet"), s("GreetGoodbye")).unwrap();
    let ctx = Context::new(
        s("Person"),
        vec![Attribute { name: s("name"), value: AttrValue::Text(s("Alice")) }],
        vec![s("Greet")],
        table,
    );
    let e = check_context(&reg, &ctx).unwrap_err();
    assert_eq!(e.reason, Reason::Missing);
    assert_eq!(e.capability, s("Greet"));
    assert_eq!(e.chain, vec![s("Greet")]);
}

#[test]
fn ambiguous_attributes_fail_resolution() {
    let reg = greeting_registry();
    let mut table = DelegationTable::new();
    table.bind(s("Greet"), s("GreetHello")).unwrap();
    let ctx = Context::new(
        s("Person"),
        vec![
            Attribute { name: s("name"), value: AttrValue::Text(s("Alice")) },
            Attribute { name: s("name"), value: AttrValue::Text(s("Alyssa")) },
        ],
        vec![s("Greet")],
        table,
    );
    let e = check_context(&reg, &ctx).unwrap_err();
    assert_eq!(e.reason, Reason::Ambiguous);
    assert_eq!(e.capability, s("HasName"));
    assert_eq!(e.chain, vec![s("Greet"), s("HasName")]);
}

#[test]
fn binary_attribute_fails_the_accessor_bound() {
    let reg = greeting_registry();
    let mut table = DelegationTable::new();
    table.bind(s("Greet"), s("GreetHello")).unwrap();
    let ctx = Context::new(
        s("Person"),
        vec![Attribute { name: s("name"), value: AttrValue::Binary(vec![65]) }],
        vec![s("Greet")],
        table,
    );
    let e = check_context(&reg, &ctx).unwrap_err();
    assert_eq!(e.reason, Reason::Missing);
    assert_eq!(e.capability, s("HasName"));
}

#[test]
fn requirement_cycle_is_cyclic_not_divergent() {
    // Echo requires Mirror, and Mirror requires Echo back: a cycle, found
    // and named rather than looped on
    let mut reg = Registry::new();
    reg.declare_capability(Capability { name: s("Echo"), accessor_attr: None }).unwrap();
    reg.declare_capability(Capability { name: s("Mirror"), accessor_attr: None }).unwrap();
    reg.declare_provider(Provider {
        name: s("EchoViaMirror"),
        implements: s("Echo"),
        requires: vec![s("Mirror")],
        behavior: Behavior::ReadAttr { attr: s("sound") },
    })
    .unwrap();
    reg.declare_provider(Provider {
        name: s("MirrorViaEcho"),
        implements: s("Mirror"),
        requires: vec![s("Echo")],
        behavior: Behavior::ReadAttr { attr: s("sound") },
    })
    .unwrap();
    let mut table = DelegationTable::new();
    table.bind(s("Echo"), s("EchoViaMirror")).unwrap();
    table.bind(s("Mirror"), s("MirrorViaEcho")).unwrap();
    let ctx = Context::new(
        s("Cave"),
        vec![Attribute { name: s("sound"), value: AttrValue::Text(s("hello")) }],
        vec![s("Echo")],
        table,
    );
    let e = check_context(&reg, &ctx).unwrap_err();
    assert_eq!(e.reason, Reason::Cyclic);
    assert_eq!(e.capability, s("Echo"));
    assert_eq!(e.chain, vec![s("Echo"), s("Mirror"), s("Echo")]);
}

#[test]
fn explicitly_bound_getter_resolves() {
    // the accessor wired through the table instead of synthesized
    let mut reg = Registry::new();
    reg.declare_capability(Capability { name: s("HasName"), accessor_attr: Some(s("name")) })
        .unwrap();
    reg.declare_provider(Provider {
        name: s("NameGetter"),
        implements: s("HasName"),
        requires: vec![],
        behavior: Behavior::ReadAttr { attr: s("name") },
    })
    .unwrap();
    let mut table = DelegationTable::new();
    table.bind(s("HasName"), s("NameGetter")).unwrap();
    let ctx = Context::new(
        s("Person"),
        vec![Attribute { name: s("name"), value: AttrValue::Text(s("Alice")) }],
        vec![s("HasName")],
        table,
    );
    assert!(check_context(&reg, &ctx).is_ok());
    assert_eq!(invoke(&reg, &ctx, &s("HasName")), Some(s("Alice")));
}

#[test]
fn empty_exposure_is_complete() {
    let reg = greeting_registry();
    let ctx = Context::new(s("Person"), vec![], vec![], DelegationTable::new());
    assert!(check_context(&reg, &ctx).is_ok());
}

#[test]
fn undeclared_capability_is_missing() {
    let reg = greeting_registry();
    let ctx = Context::new(s("Person"), vec![], vec![s("Fly")], DelegationTable::new());
    let e = check_context(&reg, &ctx).unwrap_err();
    assert_eq!(e.reason, Reason::Missing);
    assert_eq!(e.capability, s("Fly"));
    assert_eq!(e.chain, vec![s("Fly")]);
}

#[test]
fn invoking_an_unresolved_capability_yields_nothing() {
    let reg = greeting_registry();
    let ctx = person("full_name", "Alice");
    assert_eq!(invoke(&reg, &ctx, &s("HasName")), None);
    assert_eq!(invoke(&reg, &ctx, &s("Fly")), None);
}
