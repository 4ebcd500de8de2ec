//! The shared, immutable definitions of the engine: attribute values,
//! capability and provider declarations, delegation-table entries, and the
//! definition-time errors.

use vstd::prelude::*;

verus! {

/// A value carried by a context attribute.  Only text values satisfy the
/// display-style bound that accessor capabilities place on the attribute they
/// expose; a binary value never matches an accessor.
pub enum AttrValue {
    Text(String),
    Binary(Vec<u8>),
}

/// The concrete shape an attribute value has, and so the concrete type a
/// slot gets bound to on a given context.
#[derive(Clone, Copy, Debug, PartialEq, Eq, Structural)]
pub enum AttrKind {
    Text,
    Binary,
}

/// The shape of an attribute value.
pub open spec fn kind_of(v: AttrValue) -> AttrKind {
    match v {
        AttrValue::Text(_) => AttrKind::Text,
        AttrValue::Binary(_) => AttrKind::Binary,
    }
}

/// A named data attribute owned by a context.
pub struct Attribute {
    pub name: String,
    pub value: AttrValue,
}

/// A slot declaration: a named, typeless placeholder owned by a context.
/// A slot has no behavior of its own; each context binds it to the concrete
/// type of its own attribute of the same name.
pub struct Slot {
    pub name: String,
}

/// A capability declaration: a named behavioral contract a context may
/// expose.  An accessor-shaped capability (`accessor_attr` is `Some`) merely
/// exposes read access to the context attribute of that name, and may be
/// synthesized from a matching attribute when no provider is bound to it.
pub struct Capability {
    pub name: String,
    pub accessor_attr: Option<String>,
}

/// What a provider does when its capability is invoked on a context.
pub enum Behavior {
    /// Return the text value of the context attribute named `attr`.
    ReadAttr { attr: String },
    /// Read the accessor capability named `uses` on the same context and
    /// surround its value: `prefix + value + suffix`.
    Format { prefix: String, uses: String, suffix: String },
}

/// A provider: a reusable implementation of exactly one capability, generic
/// over any context that satisfies its requirement set.  The requirement set
/// is the sole channel through which the provider observes the context.
pub struct Provider {
    pub name: String,
    pub implements: String,
    pub requires: Vec<String>,
    pub behavior: Behavior,
}

/// One delegation-table entry: a capability identifier wired to the provider
/// chosen to implement it.
pub struct Binding {
    pub capability: String,
    pub provider: String,
}

/// The definition-time errors: each is rejected when the offending
/// declaration is made, never at resolution or invocation time.
#[derive(Clone, Copy, Debug, PartialEq, Eq, Structural)]
pub enum DeclError {
    /// Two capabilities share an identifier.
    DuplicateCapability,
    /// Two providers share an identifier.
    DuplicateProvider,
    /// Two slots share an identifier.
    DuplicateSlot,
    /// A delegation table already binds this capability identifier.
    DuplicateBinding,
    /// A provider's behavior reads a capability missing from its own
    /// declared requirement set.
    UndeclaredRequirement,
}

/// The names of a list of identifiers, as character sequences.
pub open spec fn names_of(s: Seq<String>) -> Seq<Seq<char>> {
    s.map_values(|x: String| x@)
}

/// Whether some capability in `s` carries the name `n`.
pub open spec fn some_cap_named(s: Seq<Capability>, n: Seq<char>) -> bool {
    exists|i: int| 0 <= i < s.len() && (#[trigger] s[i]).name@ == n
}

/// Whether some provider in `s` carries the name `n`.
pub open spec fn some_provider_named(s: Seq<Provider>, n: Seq<char>) -> bool {
    exists|i: int| 0 <= i < s.len() && (#[trigger] s[i]).name@ == n
}

/// Whether some slot in `s` carries the name `n`.
pub open spec fn some_slot_named(s: Seq<Slot>, n: Seq<char>) -> bool {
    exists|i: int| 0 <= i < s.len() && (#[trigger] s[i]).name@ == n
}

/// Slot names are pairwise distinct.
pub open spec fn unique_slot_names(s: Seq<Slot>) -> bool {
    forall|i: int, j: int| 0 <= i < j < s.len() ==> (#[trigger] s[i]).name@ != (#[trigger] s[j]).name@
}

/// Capability names are pairwise distinct.
pub open spec fn unique_cap_names(s: Seq<Capability>) -> bool {
    forall|i: int, j: int| 0 <= i < j < s.len() ==> (#[trigger] s[i]).name@ != (#[trigger] s[j]).name@
}

/// Provider names are pairwise distinct.
pub open spec fn unique_provider_names(s: Seq<Provider>) -> bool {
    forall|i: int, j: int| 0 <= i < j < s.len() ==> (#[trigger] s[i]).name@ != (#[trigger] s[j]).name@
}

/// A provider may only read capabilities it declares in its requirement set.
pub open spec fn provider_wf(p: Provider) -> bool {
    match p.behavior {
        Behavior::ReadAttr { .. } => true,
        Behavior::Format { uses, .. } => names_of(p.requires@).contains(uses@),
    }
}

/// Whether the list of identifiers `v` contains the name `n`.
pub fn names_contain(v: &Vec<String>, n: &String) -> (r: bool)
    ensures
        r == names_of(v@).contains(n@),
{
    let mut i: usize = 0;
    while i < v.len()
        invariant
            0 <= i <= v.len(),
            forall|j: int| 0 <= j < i ==> names_of(v@)[j] != n@,
        decreases v.len() - i,
    {
        if v[i] == *n {
            assert(names_of(v@)[i as int] == n@);
            return true;
        }
        i += 1;
    }
    false
}

} // verus!
