//! The registry of process-wide capability and provider definitions.
//!
//! Declarations are pure metadata registration: the only way a declaration
//! can fail is a naming collision, or a provider whose behavior reads a
//! capability outside its own declared requirement set.

use vstd::prelude::*;
use crate::model::{
    Behavior, Capability, DeclError, Provider, Slot, names_contain, provider_wf, some_cap_named,
    some_provider_named, some_slot_named, unique_cap_names, unique_provider_names,
    unique_slot_names,
};

verus! {

/// The immutable, shared set of capability and provider definitions that a
/// resolution pass is run against.
pub struct Registry {
    pub capabilities: Vec<Capability>,
    pub providers: Vec<Provider>,
    pub slots: Vec<Slot>,
}

impl Registry {
    /// Every declared capability, provider and slot carries a unique
    /// identifier, and every provider reads only capabilities it declares
    /// as requirements.
    pub open spec fn wf(&self) -> bool {
        &&& unique_cap_names(self.capabilities@)
        &&& unique_provider_names(self.providers@)
        &&& unique_slot_names(self.slots@)
        &&& forall|i: int|
            0 <= i < self.providers@.len() ==> provider_wf(#[trigger] self.providers@[i])
    }

    /// An empty registry.
    pub fn new() -> (r: Registry)
        ensures
            r.wf(),
            r.capabilities@ == Seq::<Capability>::empty(),
            r.providers@ == Seq::<Provider>::empty(),
            r.slots@ == Seq::<Slot>::empty(),
    {
        Registry { capabilities: Vec::new(), providers: Vec::new(), slots: Vec::new() }
    }

    /// The index of the slot named `name`, if one is declared.
    pub fn find_slot(&self, name: &String) -> (r: Option<usize>)
        ensures
            r matches Some(i) ==> i < self.slots@.len() && self.slots@[i as int].name@ == name@,
            r is None ==> !some_slot_named(self.slots@, name@),
    {
        let mut i: usize = 0;
        while i < self.slots.len()
            invariant
                0 <= i <= self.slots.len(),
                forall|j: int| 0 <= j < i ==> (#[trigger] self.slots@[j]).name@ != name@,
            decreases self.slots.len() - i,
        {
            if self.slots[i].name == *name {
                return Some(i);
            }
            i += 1;
        }
        None
    }

    /// Declare a slot.  The declaration is rejected exactly when the
    /// identifier collides with an already declared slot, and the registry
    /// is unchanged on rejection.
    pub fn declare_slot(&mut self, slot: Slot) -> (r: Result<(), DeclError>)
        requires
            old(self).wf(),
        ensures
            final(self).wf(),
            r is Ok <==> !some_slot_named(old(self).slots@, slot.name@),
            r is Ok ==> final(self).slots@ == old(self).slots@.push(slot)
                && final(self).capabilities@ == old(self).capabilities@ && final(self).providers@
                == old(self).providers@,
            r is Err ==> r == Err::<(), DeclError>(DeclError::DuplicateSlot) && *final(self)
                == *old(self),
    {
        match self.find_slot(&slot.name) {
            Some(_) => Err(DeclError::DuplicateSlot),
            None => {
                self.slots.push(slot);
                proof {
                    let s = self.slots@;
                    assert forall|i: int, j: int| 0 <= i < j < s.len() implies (#[trigger] s[i]).name@
                        != (#[trigger] s[j]).name@ by {
                        if j == s.len() - 1 {
                            assert(old(self).slots@[i] == s[i]);
                        } else {
                            assert(old(self).slots@[i] == s[i]);
                            assert(old(self).slots@[j] == s[j]);
                        }
                    }
                }
                Ok(())
            },
        }
    }

    /// The index of the capability named `name`, if one is declared.
    pub fn find_capability(&self, name: &String) -> (r: Option<usize>)
        ensures
            r matches Some(i) ==> i < self.capabilities@.len()
                && self.capabilities@[i as int].name@ == name@,
            r is None ==> !some_cap_named(self.capabilities@, name@),
    {
        let mut i: usize = 0;
        while i < self.capabilities.len()
            invariant
                0 <= i <= self.capabilities.len(),
                forall|j: int| 0 <= j < i ==> (#[trigger] self.capabilities@[j]).name@ != name@,
            decreases self.capabilities.len() - i,
        {
            if self.capabilities[i].name == *name {
                return Some(i);
            }
            i += 1;
        }
        None
    }

    /// The index of the provider named `name`, if one is declared.
    pub fn find_provider(&self, name: &String) -> (r: Option<usize>)
        ensures
            r matches Some(i) ==> i < self.providers@.len()
                && self.providers@[i as int].name@ == name@,
            r is None ==> !some_provider_named(self.providers@, name@),
    {
        let mut i: usize = 0;
        while i < self.providers.len()
            invariant
                0 <= i <= self.providers.len(),
                forall|j: int| 0 <= j < i ==> (#[trigger] self.providers@[j]).name@ != name@,
            decreases self.providers.len() - i,
        {
            if self.providers[i].name == *name {
                return Some(i);
            }
            i += 1;
        }
        None
    }

    /// Declare a capability.  The declaration is rejected exactly when the
    /// identifier collides with an already declared capability, and the
    /// registry is unchanged on rejection.
    pub fn declare_capability(&mut self, cap: Capability) -> (r: Result<(), DeclError>)
        requires
            old(self).wf(),
        ensures
            final(self).wf(),
            r is Ok <==> !some_cap_named(old(self).capabilities@, cap.name@),
            r is Ok ==> final(self).capabilities@ == old(self).capabilities@.push(cap)
                && final(self).providers@ == old(self).providers@ && final(self).slots@ == old(
                self,
            ).slots@,
            r is Err ==> r == Err::<(), DeclError>(DeclError::DuplicateCapability)
                && *final(self) == *old(self),
    {
        match self.find_capability(&cap.name) {
            Some(_) => Err(DeclError::DuplicateCapability),
            None => {
                self.capabilities.push(cap);
                proof {
                    let s = self.capabilities@;
                    assert forall|i: int, j: int| 0 <= i < j < s.len() implies (#[trigger] s[i]).name@
                        != (#[trigger] s[j]).name@ by {
                        if j == s.len() - 1 {
                            assert(old(self).capabilities@[i] == s[i]);
                        } else {
                            assert(old(self).capabilities@[i] == s[i]);
                            assert(old(self).capabilities@[j] == s[j]);
                        }
                    }
                }
                Ok(())
            },
        }
    }

    /// Declare a provider.  The declaration is rejected exactly when the
    /// identifier collides with an already declared provider, or when the
    /// provider's behavior reads a capability missing from its own
    /// requirement set; the registry is unchanged on rejection.
    pub fn declare_provider(&mut self, p: Provider) -> (r: Result<(), DeclError>)
        requires
            old(self).wf(),
        ensures
            final(self).wf(),
            r is Ok <==> !some_provider_named(old(self).providers@, p.name@) && provider_wf(p),
            r is Ok ==> final(self).providers@ == old(self).providers@.push(p)
                && final(self).capabilities@ == old(self).capabilities@ && final(self).slots@
                == old(self).slots@,
            r is Err ==> *final(self) == *old(self),
            some_provider_named(old(self).providers@, p.name@) ==> r == Err::<(), DeclError>(
                DeclError::DuplicateProvider,
            ),
            !some_provider_named(old(self).providers@, p.name@) && !provider_wf(p) ==> r
                == Err::<(), DeclError>(DeclError::UndeclaredRequirement),
    {
        match self.find_provider(&p.name) {
            Some(_) => Err(DeclError::DuplicateProvider),
            None => {
                let behavior_ok = match &p.behavior {
                    Behavior::ReadAttr { .. } => true,
                    Behavior::Format { uses, .. } => names_contain(&p.requires, uses),
                };
                if !behavior_ok {
                    return Err(DeclError::UndeclaredRequirement);
                }
                self.providers.push(p);
                proof {
                    let s = self.providers@;
                    assert forall|i: int, j: int| 0 <= i < j < s.len() implies (#[trigger] s[i]).name@
                        != (#[trigger] s[j]).name@ by {
                        if j == s.len() - 1 {
                            assert(old(self).providers@[i] == s[i]);
                        } else {
                            assert(old(self).providers@[i] == s[i]);
                            assert(old(self).providers@[j] == s[j]);
                        }
                    }
                    assert forall|i: int| 0 <= i < s.len() implies provider_wf(#[trigger] s[i]) by {
                        if i < s.len() - 1 {
                            assert(old(self).providers@[i] == s[i]);
                        }
                    }
                }
                Ok(())
            },
        }
    }
}

} // verus!
