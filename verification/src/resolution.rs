//! The mathematical model of capability resolution.
//!
//! For a fixed registry and context these functions say which capability
//! identifiers have a resolver (a valid delegation-table binding, or a
//! synthesizable getter when the table is silent), what each resolver in turn
//! requires, and what it means for the context to be capability-complete:
//! some duplicate-free order lists every exposed capability, gives every
//! listed capability a resolver, and lists each capability only after
//! everything its resolver requires.

use vstd::prelude::*;
use crate::context::{Context, binding_for, some_binding_for};
use crate::model::{Behavior, Binding, Capability, Provider, names_of, some_cap_named};
use crate::registry::Registry;
use crate::synthesis::{attr_matches, match_count};

verus! {

/// The attribute name a behavior directly reads, if it is a getter.
pub open spec fn reads_attr(b: Behavior) -> Option<Seq<char>> {
    match b {
        Behavior::ReadAttr { attr } => Some(attr@),
        Behavior::Format { .. } => None,
    }
}

/// Entry `i` of the context's table binds `cap` to the declared provider at
/// index `j`, and that provider's declared capability identity matches the
/// key.
pub open spec fn provider_entry(reg: Registry, ctx: Context, cap: Seq<char>, i: int, j: int) -> bool {
    &&& binding_for(ctx.table.bindings@, cap, i)
    &&& 0 <= j < reg.providers@.len()
    &&& reg.providers@[j].name@ == ctx.table.bindings@[i].provider@
    &&& reg.providers@[j].implements@ == cap
}

/// Some table entry validly binds `cap` to a declared provider.
pub open spec fn some_provider_entry(reg: Registry, ctx: Context, cap: Seq<char>) -> bool {
    exists|i: int, j: int| provider_entry(reg, ctx, cap, i, j)
}

/// Provider `j` is validly bound to `cap` by some table entry.
pub open spec fn entry_with_provider(reg: Registry, ctx: Context, cap: Seq<char>, j: int) -> bool {
    exists|i: int| #[trigger] provider_entry(reg, ctx, cap, i, j)
}

/// The index of the provider validly bound to `cap`; meaningful only when
/// `some_provider_entry` holds (it is then unique under well-formedness).
pub open spec fn the_provider_idx(reg: Registry, ctx: Context, cap: Seq<char>) -> int {
    choose|j: int| entry_with_provider(reg, ctx, cap, j)
}

/// The provider validly bound to `cap`.
pub open spec fn the_provider(reg: Registry, ctx: Context, cap: Seq<char>) -> Provider {
    reg.providers@[the_provider_idx(reg, ctx, cap)]
}

/// `cap` is declared as an accessor-shaped capability.
pub open spec fn synth_candidate(reg: Registry, cap: Seq<char>) -> bool {
    exists|k: int|
        0 <= k < reg.capabilities@.len() && (#[trigger] reg.capabilities@[k]).name@ == cap
            && reg.capabilities@[k].accessor_attr is Some
}

/// The index of the accessor-shaped capability declaration named `cap`.
pub open spec fn the_cap_idx(reg: Registry, cap: Seq<char>) -> int {
    choose|k: int|
        0 <= k < reg.capabilities@.len() && (#[trigger] reg.capabilities@[k]).name@ == cap
            && reg.capabilities@[k].accessor_attr is Some
}

/// The attribute name that the accessor-shaped capability `cap` exposes,
/// if `cap` is declared accessor-shaped.
pub open spec fn the_accessor_slot(reg: Registry, cap: Seq<char>) -> Option<Seq<char>> {
    if synth_candidate(reg, cap) {
        match reg.capabilities@[the_cap_idx(reg, cap)].accessor_attr {
            Some(s) => Some(s@),
            None => None,
        }
    } else {
        None
    }
}

/// The text of the unique attribute matching `slot`; meaningful only when
/// the match count is one.
pub open spec fn matched_text(attrs: Seq<crate::model::Attribute>, slot: Seq<char>) -> Seq<char> {
    let k = choose|k: int| 0 <= k < attrs.len() && attr_matches(#[trigger] attrs[k], slot);
    match attrs[k].value {
        crate::model::AttrValue::Text(s) => s@,
        crate::model::AttrValue::Binary(_) => Seq::empty(),
    }
}

/// The value an accessor capability reads on this context: through a bound
/// getter provider when the table binds it, through getter synthesis when
/// the table is silent; in either case the attribute match must be unique.
pub open spec fn accessor_value(reg: Registry, ctx: Context, cap: Seq<char>) -> Option<Seq<char>> {
    if !some_cap_named(reg.capabilities@, cap) {
        None
    } else if some_provider_entry(reg, ctx, cap) {
        match reads_attr(the_provider(reg, ctx, cap).behavior) {
            Some(slot) => if match_count(ctx.attributes@, slot) == 1 {
                Some(matched_text(ctx.attributes@, slot))
            } else {
                None
            },
            None => None,
        }
    } else if !some_binding_for(ctx.table.bindings@, cap) {
        match the_accessor_slot(reg, cap) {
            Some(slot) => if match_count(ctx.attributes@, slot) == 1 {
                Some(matched_text(ctx.attributes@, slot))
            } else {
                None
            },
            None => None,
        }
    } else {
        None
    }
}

/// A bound provider's behavior is structurally satisfied by this context:
/// a getter finds exactly one matching attribute, and a formatter's accessor
/// read succeeds.
pub open spec fn behavior_ok(reg: Registry, ctx: Context, b: Behavior) -> bool {
    match b {
        Behavior::ReadAttr { attr } => match_count(ctx.attributes@, attr@) == 1,
        Behavior::Format { uses, .. } => accessor_value(reg, ctx, uses@) is Some,
    }
}

/// `cap` is declared and resolves through its delegation-table binding.
pub open spec fn resolves_by_table(reg: Registry, ctx: Context, cap: Seq<char>) -> bool {
    &&& some_cap_named(reg.capabilities@, cap)
    &&& some_provider_entry(reg, ctx, cap)
    &&& behavior_ok(reg, ctx, the_provider(reg, ctx, cap).behavior)
}

/// `cap` is declared accessor-shaped, the table is silent about it, and
/// exactly one attribute matches its slot: a getter is synthesized.
pub open spec fn resolves_by_synth(reg: Registry, ctx: Context, cap: Seq<char>) -> bool {
    &&& !some_binding_for(ctx.table.bindings@, cap)
    &&& match the_accessor_slot(reg, cap) {
        Some(slot) => match_count(ctx.attributes@, slot) == 1,
        None => false,
    }
}

/// `cap` has a resolver on this context.
pub open spec fn has_resolver(reg: Registry, ctx: Context, cap: Seq<char>) -> bool {
    resolves_by_table(reg, ctx, cap) || resolves_by_synth(reg, ctx, cap)
}

/// Resolution of `cap` fails because an attribute match is ambiguous: more
/// than one attribute satisfies the getter it is wired (or would be
/// synthesized) to.
pub open spec fn ambiguous_at(reg: Registry, ctx: Context, cap: Seq<char>) -> bool {
    &&& some_cap_named(reg.capabilities@, cap)
    &&& {
        ||| (some_provider_entry(reg, ctx, cap) && match reads_attr(
            the_provider(reg, ctx, cap).behavior,
        ) {
            Some(slot) => match_count(ctx.attributes@, slot) >= 2,
            None => false,
        })
        ||| (!some_binding_for(ctx.table.bindings@, cap) && match the_accessor_slot(reg, cap) {
            Some(slot) => match_count(ctx.attributes@, slot) >= 2,
            None => false,
        })
    }
}

/// Resolution of `cap` fails because nothing provides it: no valid binding,
/// no synthesizable getter, and no ambiguity to blame.
pub open spec fn missing_at(reg: Registry, ctx: Context, cap: Seq<char>) -> bool {
    !has_resolver(reg, ctx, cap) && !ambiguous_at(reg, ctx, cap)
}

/// What the resolver of `cap` requires in turn: the requirement set declared
/// by the bound provider; a synthesized getter requires nothing.
pub open spec fn requires_of(reg: Registry, ctx: Context, cap: Seq<char>) -> Seq<Seq<char>> {
    if resolves_by_table(reg, ctx, cap) {
        names_of(the_provider(reg, ctx, cap).requires@)
    } else {
        Seq::empty()
    }
}

/// One requirement step: capability `a` is declared and validly bound to a
/// provider whose requirement set names `b`.  The step does not ask whether
/// the provider's behavior is structurally satisfied, so a chain can walk
/// through a capability whose own resolution is going to fail.
pub open spec fn chain_step(reg: Registry, ctx: Context, a: Seq<char>, b: Seq<char>) -> bool {
    &&& some_cap_named(reg.capabilities@, a)
    &&& some_provider_entry(reg, ctx, a)
    &&& names_of(the_provider(reg, ctx, a).requires@).contains(b)
}

/// `chain` is a requirement chain: it starts at a capability the context
/// exposes, and each link is required by the provider bound to the link
/// before it.  Nothing is assumed about the resolver of the final link.
pub open spec fn chain_to(reg: Registry, ctx: Context, chain: Seq<Seq<char>>) -> bool {
    &&& chain.len() >= 1
    &&& ctx.exposed_names().contains(chain[0])
    &&& forall|i: int| 0 <= i < chain.len() - 1 ==> chain_step(reg, ctx, #[trigger] chain[i], chain[i + 1])
}

/// A duplicate-free resolution order over capability names: every listed
/// capability has a resolver and appears only after everything its resolver
/// requires.
pub open spec fn resolved_order(reg: Registry, ctx: Context, order: Seq<Seq<char>>) -> bool {
    &&& forall|i: int, j: int| 0 <= i < j < order.len() ==> order[i] != order[j]
    &&& forall|i: int| 0 <= i < order.len() ==> has_resolver(reg, ctx, #[trigger] order[i])
    &&& forall|i: int, k: int|
        0 <= i < order.len() && 0 <= k < requires_of(reg, ctx, order[i]).len() ==> order.take(
            i,
        ).contains(#[trigger] requires_of(reg, ctx, order[i])[k])
}

/// A resolution order that also covers every capability the context exposes.
pub open spec fn complete_order(reg: Registry, ctx: Context, order: Seq<Seq<char>>) -> bool {
    &&& resolved_order(reg, ctx, order)
    &&& forall|e: Seq<char>| ctx.exposed_names().contains(e) ==> order.contains(e)
}

/// The context is capability-complete: every capability it exposes, and
/// everything transitively required by the providers wired to them, reaches
/// a resolver with no cycle.
pub open spec fn capability_complete(reg: Registry, ctx: Context) -> bool {
    exists|order: Seq<Seq<char>>| complete_order(reg, ctx, order)
}

/// A valid provider entry for `cap` is unique: the table binds each key at
/// most once and provider names are unique.
pub proof fn lemma_provider_entry_unique(
    reg: Registry,
    ctx: Context,
    cap: Seq<char>,
    i1: int,
    j1: int,
    i2: int,
    j2: int,
)
    requires
        reg.wf(),
        ctx.wf(),
        provider_entry(reg, ctx, cap, i1, j1),
        provider_entry(reg, ctx, cap, i2, j2),
    ensures
        i1 == i2,
        j1 == j2,
{
    let t = ctx.table.bindings@;
    assert(t[i1].capability@ == t[i2].capability@);
    if i1 < i2 || i2 < i1 {
        assert(false);
    }
    let ps = reg.providers@;
    assert(ps[j1].name@ == ps[j2].name@);
    if j1 < j2 || j2 < j1 {
        assert(false);
    }
}

/// Any witness of a valid provider entry pins down `the_provider_idx`.
pub proof fn lemma_the_provider(reg: Registry, ctx: Context, cap: Seq<char>, i: int, j: int)
    requires
        reg.wf(),
        ctx.wf(),
        provider_entry(reg, ctx, cap, i, j),
    ensures
        some_provider_entry(reg, ctx, cap),
        the_provider_idx(reg, ctx, cap) == j,
        the_provider(reg, ctx, cap) == reg.providers@[j],
{
    assert(some_provider_entry(reg, ctx, cap));
    assert(entry_with_provider(reg, ctx, cap, j));
    let j2 = the_provider_idx(reg, ctx, cap);
    assert(entry_with_provider(reg, ctx, cap, j2));
    let i2 = choose|i2: int| #[trigger] provider_entry(reg, ctx, cap, i2, j2);
    lemma_provider_entry_unique(reg, ctx, cap, i, j, i2, j2);
}

/// Any accessor-shaped declaration of `cap` pins down `the_cap_idx`.
pub proof fn lemma_the_cap(reg: Registry, cap: Seq<char>, k: int)
    requires
        reg.wf(),
        0 <= k < reg.capabilities@.len(),
        reg.capabilities@[k].name@ == cap,
        reg.capabilities@[k].accessor_attr is Some,
    ensures
        synth_candidate(reg, cap),
        the_cap_idx(reg, cap) == k,
{
    assert(synth_candidate(reg, cap));
    let k2 = the_cap_idx(reg, cap);
    assert(0 <= k2 < reg.capabilities@.len() && reg.capabilities@[k2].name@ == cap
        && reg.capabilities@[k2].accessor_attr is Some);
    if k < k2 || k2 < k {
        assert(reg.capabilities@[k].name@ != reg.capabilities@[k2].name@);
    }
}

/// With exactly one matching attribute, any match witness gives the matched
/// text.
pub proof fn lemma_matched_text(attrs: Seq<crate::model::Attribute>, slot: Seq<char>, i: int)
    requires
        match_count(attrs, slot) == 1,
        0 <= i < attrs.len(),
        attr_matches(attrs[i], slot),
    ensures
        matched_text(attrs, slot) == match attrs[i].value {
            crate::model::AttrValue::Text(s) => s@,
            crate::model::AttrValue::Binary(_) => Seq::<char>::empty(),
        },
{
    let k = choose|k: int| 0 <= k < attrs.len() && attr_matches(#[trigger] attrs[k], slot);
    assert(0 <= k < attrs.len() && attr_matches(attrs[k], slot));
    crate::synthesis::lemma_unique_match(attrs, slot, i, k);
}

/// Without a table entry for `cap` there is no valid provider entry.
pub proof fn lemma_no_binding_no_entry(reg: Registry, ctx: Context, cap: Seq<char>)
    requires
        !some_binding_for(ctx.table.bindings@, cap),
    ensures
        !some_provider_entry(reg, ctx, cap),
{
    assert forall|i: int, j: int| !provider_entry(reg, ctx, cap, i, j) by {
        if provider_entry(reg, ctx, cap, i, j) {
            assert(binding_for(ctx.table.bindings@, cap, i));
        }
    }
}

/// A table entry whose provider identifier is not declared yields no valid
/// provider entry.
pub proof fn lemma_no_entry_unknown_provider(reg: Registry, ctx: Context, cap: Seq<char>, bi: int)
    requires
        reg.wf(),
        ctx.wf(),
        binding_for(ctx.table.bindings@, cap, bi),
        !crate::model::some_provider_named(reg.providers@, ctx.table.bindings@[bi].provider@),
    ensures
        !some_provider_entry(reg, ctx, cap),
{
    let t = ctx.table.bindings@;
    assert forall|i: int, j: int| !provider_entry(reg, ctx, cap, i, j) by {
        if provider_entry(reg, ctx, cap, i, j) {
            assert(t[i].capability@ == t[bi].capability@);
            if i < bi || bi < i {
                assert(false);
            }
            assert(reg.providers@[j].name@ == t[bi].provider@);
        }
    }
}

/// A table entry whose provider implements a different capability than the
/// key yields no valid provider entry.
pub proof fn lemma_no_entry_mismatch(
    reg: Registry,
    ctx: Context,
    cap: Seq<char>,
    bi: int,
    pj: int,
)
    requires
        reg.wf(),
        ctx.wf(),
        binding_for(ctx.table.bindings@, cap, bi),
        0 <= pj < reg.providers@.len(),
        reg.providers@[pj].name@ == ctx.table.bindings@[bi].provider@,
        reg.providers@[pj].implements@ != cap,
    ensures
        !some_provider_entry(reg, ctx, cap),
{
    let t = ctx.table.bindings@;
    let ps = reg.providers@;
    assert forall|i: int, j: int| !provider_entry(reg, ctx, cap, i, j) by {
        if provider_entry(reg, ctx, cap, i, j) {
            assert(t[i].capability@ == t[bi].capability@);
            if i < bi || bi < i {
                assert(false);
            }
            assert(ps[j].name@ == ps[pj].name@);
            if j < pj || pj < j {
                assert(false);
            }
        }
    }
}

/// A capability declared without an accessor shape cannot be synthesized.
pub proof fn lemma_not_accessor(reg: Registry, cap: Seq<char>, ci: int)
    requires
        reg.wf(),
        0 <= ci < reg.capabilities@.len(),
        reg.capabilities@[ci].name@ == cap,
        reg.capabilities@[ci].accessor_attr is None,
    ensures
        !synth_candidate(reg, cap),
        the_accessor_slot(reg, cap) is None,
{
    if synth_candidate(reg, cap) {
        let k = choose|k: int|
            0 <= k < reg.capabilities@.len() && (#[trigger] reg.capabilities@[k]).name@ == cap
                && reg.capabilities@[k].accessor_attr is Some;
        if k < ci || ci < k {
            assert(reg.capabilities@[k].name@ != reg.capabilities@[ci].name@);
        }
        assert(false);
    }
}

/// An ambiguous capability has no resolver: the very getter it would use
/// sees more than one matching attribute.
pub proof fn lemma_ambiguous_unresolved(reg: Registry, ctx: Context, cap: Seq<char>)
    requires
        reg.wf(),
        ctx.wf(),
        ambiguous_at(reg, ctx, cap),
    ensures
        !has_resolver(reg, ctx, cap),
{
    if some_provider_entry(reg, ctx, cap) {
        assert(!resolves_by_synth(reg, ctx, cap)) by {
            let (i, j): (int, int) = choose|i: int, j: int| provider_entry(reg, ctx, cap, i, j);
            assert(binding_for(ctx.table.bindings@, cap, i));
        }
    }
}

} // verus!
