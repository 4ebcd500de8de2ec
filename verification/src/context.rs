//! Contexts and their delegation tables.
//!
//! A context exclusively owns its data attributes, the list of capabilities
//! it declares it needs to expose, and exactly one delegation table.  All
//! three are fixed when the context is assembled; nothing is mutated after.

use vstd::prelude::*;
use crate::model::{Attribute, Binding, DeclError, names_of};

verus! {

/// A binding in `t` wires the capability named `cap` at entry `i`.
pub open spec fn binding_for(t: Seq<Binding>, cap: Seq<char>, i: int) -> bool {
    0 <= i < t.len() && t[i].capability@ == cap
}

/// Some entry of `t` binds the capability named `cap`.
pub open spec fn some_binding_for(t: Seq<Binding>, cap: Seq<char>) -> bool {
    exists|i: int| binding_for(t, cap, i)
}

/// Each capability identifier is bound at most once.
pub open spec fn unique_binding_keys(t: Seq<Binding>) -> bool {
    forall|i: int, j: int|
        0 <= i < j < t.len() ==> (#[trigger] t[i]).capability@ != (#[trigger] t[j]).capability@
}

/// A per-context mapping from capability identifiers to chosen providers.
/// Declared once per context; binding the same capability twice is rejected
/// when the binding is declared, whether or not resolution is ever attempted.
pub struct DelegationTable {
    pub bindings: Vec<Binding>,
}

impl DelegationTable {
    /// No capability identifier is bound to two providers.
    pub open spec fn wf(&self) -> bool {
        unique_binding_keys(self.bindings@)
    }

    /// An empty table.
    pub fn new() -> (r: DelegationTable)
        ensures
            r.wf(),
            r.bindings@ == Seq::<Binding>::empty(),
    {
        DelegationTable { bindings: Vec::new() }
    }

    /// The entry binding the capability named `cap`, if any.
    pub fn lookup(&self, cap: &String) -> (r: Option<usize>)
        ensures
            r matches Some(i) ==> binding_for(self.bindings@, cap@, i as int),
            r is None ==> !some_binding_for(self.bindings@, cap@),
    {
        let mut i: usize = 0;
        while i < self.bindings.len()
            invariant
                0 <= i <= self.bindings.len(),
                forall|j: int| 0 <= j < i ==> (#[trigger] self.bindings@[j]).capability@ != cap@,
            decreases self.bindings.len() - i,
        {
            if self.bindings[i].capability == *cap {
                return Some(i);
            }
            i += 1;
        }
        None
    }

    /// Wire `capability` to `provider`.  The binding is rejected exactly when
    /// the table already binds this capability identifier, and the table is
    /// unchanged on rejection.
    pub fn bind(&mut self, capability: String, provider: String) -> (r: Result<(), DeclError>)
        requires
            old(self).wf(),
        ensures
            final(self).wf(),
            r is Ok <==> !some_binding_for(old(self).bindings@, capability@),
            r is Ok ==> final(self).bindings@ == old(self).bindings@.push(
                Binding { capability, provider },
            ),
            r is Err ==> r == Err::<(), DeclError>(DeclError::DuplicateBinding)
                && *final(self) == *old(self),
    {
        match self.lookup(&capability) {
            Some(_) => Err(DeclError::DuplicateBinding),
            None => {
                self.bindings.push(Binding { capability, provider });
                proof {
                    let s = self.bindings@;
                    assert forall|i: int, j: int| 0 <= i < j < s.len() implies (#[trigger] s[i])
                        .capability@ != (#[trigger] s[j]).capability@ by {
                        if j == s.len() - 1 {
                            assert(old(self).bindings@[i] == s[i]);
                            assert(!binding_for(old(self).bindings@, s[j].capability@, i));
                        } else {
                            assert(old(self).bindings@[i] == s[i]);
                            assert(old(self).bindings@[j] == s[j]);
                        }
                    }
                }
                Ok(())
            },
        }
    }
}

/// A concrete aggregate: named data attributes, the capabilities the context
/// declares it needs to expose, and the delegation table that wires those
/// capabilities (and everything they transitively require) to providers.
pub struct Context {
    pub name: String,
    pub attributes: Vec<Attribute>,
    pub exposes: Vec<String>,
    pub table: DelegationTable,
}

impl Context {
    /// A context is well formed when its delegation table is.
    pub open spec fn wf(&self) -> bool {
        self.table.wf()
    }

    /// The names of the capabilities the context declares it needs.
    pub open spec fn exposed_names(&self) -> Seq<Seq<char>> {
        names_of(self.exposes@)
    }

    /// Assemble a context from its parts.  The attribute set and the table
    /// are fixed from here on.
    pub fn new(
        name: String,
        attributes: Vec<Attribute>,
        exposes: Vec<String>,
        table: DelegationTable,
    ) -> (r: Context)
        requires
            table.wf(),
        ensures
            r.wf(),
            r.name == name,
            r.attributes == attributes,
            r.exposes == exposes,
            r.table == table,
    {
        Context { name, attributes, exposes, table }
    }
}

} // verus!
