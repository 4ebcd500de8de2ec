//! The resolution checker: the build-time pass that certifies a context as
//! capability-complete or reports the exact gap.
//!
//! Starting from the capabilities the context declares it needs, the checker
//! walks each bound provider's requirement set depth first.  Every
//! capability identifier moves from unresolved, to resolving while its own
//! requirements are walked, to resolved; meeting a capability that is
//! already resolving is a requirement cycle.  On success the walk yields a
//! resolution order witnessing completeness; on failure it reports the
//! failing capability, the chain of requirements that reached it, and
//! whether it was missing, ambiguous, or cyclic.

use vstd::prelude::*;
use crate::invoke::{lemma_complete_exposed_invokes, read_accessor, spec_invoke};
use crate::laws::{lemma_cycle_blocks, lemma_unresolvable_blocks};
use crate::model::{Behavior, names_of, some_cap_named};
use crate::registry::Registry;
use crate::context::{Context, binding_for, some_binding_for};
use crate::resolution::{
    ambiguous_at, behavior_ok, capability_complete, chain_step, chain_to, complete_order,
    has_resolver, lemma_ambiguous_unresolved, lemma_no_binding_no_entry, lemma_no_entry_mismatch,
    lemma_no_entry_unknown_provider, lemma_not_accessor, lemma_the_cap, lemma_the_provider,
    missing_at, provider_entry, reads_attr, requires_of, resolved_order, resolves_by_synth,
    resolves_by_table, some_provider_entry, the_provider, the_provider_idx,
};
use crate::synthesis::{SynthOutcome, synthesize_getter};

verus! {

/// The state of one capability identifier during the resolution walk.
#[derive(Clone, Copy, Debug, PartialEq, Eq, Structural)]
pub enum CapState {
    /// Not yet matched to a provider.
    Unresolved,
    /// Currently being matched; meeting it again is a cycle.
    Resolving,
    /// Matched to a resolver whose own requirements are all resolved.
    Resolved,
}

/// Why resolution of a capability failed.
#[derive(Clone, Copy, Debug, PartialEq, Eq, Structural)]
pub enum Reason {
    /// No delegation-table entry and no synthesizable getter.
    Missing,
    /// The capability transitively requires itself.
    Cyclic,
    /// More than one attribute matches the getter it is wired to.
    Ambiguous,
}

/// A structured resolution failure: the failing capability, the chain of
/// required capabilities that reached it starting from an exposed one, and
/// the reason.
pub struct ResolveError {
    pub capability: String,
    pub chain: Vec<String>,
    pub reason: Reason,
}

/// The diagnostic is precise: the chain really is a requirement chain of
/// this context ending at the failing capability, and the stated reason
/// really holds of it.
pub open spec fn resolve_error_ok(reg: Registry, ctx: Context, e: ResolveError) -> bool {
    let ch = names_of(e.chain@);
    &&& chain_to(reg, ctx, ch)
    &&& ch.last() == e.capability@
    &&& match e.reason {
        Reason::Missing => missing_at(reg, ctx, e.capability@),
        Reason::Ambiguous => ambiguous_at(reg, ctx, e.capability@),
        Reason::Cyclic => exists|j: int| 0 <= j < ch.len() - 1 && ch[j] == e.capability@,
    }
}

/// How many capabilities are still unresolved.
pub open spec fn count_unresolved(s: Seq<CapState>) -> nat
    decreases s.len(),
{
    if s.len() == 0 {
        0
    } else {
        count_unresolved(s.drop_last()) + if s.last() is Unresolved {
            1nat
        } else {
            0nat
        }
    }
}

/// The walk only moves capabilities forward: the set of resolving
/// capabilities is unchanged and resolved ones stay resolved.
pub open spec fn advanced(a: Seq<CapState>, b: Seq<CapState>) -> bool {
    &&& a.len() == b.len()
    &&& forall|i: int| 0 <= i < a.len() ==> ((#[trigger] a[i]) is Resolving <==> b[i] is Resolving)
    &&& forall|i: int| 0 <= i < a.len() ==> ((#[trigger] a[i]) is Resolved ==> b[i] is Resolved)
}

/// Pointwise fewer unresolved entries means a smaller count.
proof fn lemma_count_pointwise(a: Seq<CapState>, b: Seq<CapState>)
    requires
        a.len() == b.len(),
        forall|i: int| 0 <= i < b.len() ==> (#[trigger] b[i]) is Unresolved ==> a[i] is Unresolved,
    ensures
        count_unresolved(b) <= count_unresolved(a),
    decreases a.len(),
{
    if a.len() > 0 {
        assert(forall|i: int|
            0 <= i < b.len() - 1 ==> (#[trigger] b.drop_last()[i]) == b[i] && a.drop_last()[i]
                == a[i]);
        lemma_count_pointwise(a.drop_last(), b.drop_last());
        assert(a.last() == a[a.len() - 1] && b.last() == b[b.len() - 1]);
    }
}

/// An advanced state never has more unresolved capabilities.
proof fn lemma_advanced_count(a: Seq<CapState>, b: Seq<CapState>)
    requires
        advanced(a, b),
    ensures
        count_unresolved(b) <= count_unresolved(a),
{
    lemma_count_pointwise(a, b);
}

/// `advanced` composes.
proof fn lemma_advanced_trans(a: Seq<CapState>, b: Seq<CapState>, c: Seq<CapState>)
    requires
        advanced(a, b),
        advanced(b, c),
    ensures
        advanced(a, c),
{
}

/// Taking one capability out of the unresolved set lowers the count by one.
proof fn lemma_count_update(s: Seq<CapState>, i: int, v: CapState)
    requires
        0 <= i < s.len(),
        s[i] is Unresolved,
        !(v is Unresolved),
    ensures
        count_unresolved(s.update(i, v)) == count_unresolved(s) - 1,
    decreases s.len(),
{
    let t = s.update(i, v);
    if i == s.len() - 1 {
        assert(t.drop_last() =~= s.drop_last());
        assert(t.last() == v && s.last() == s[i]);
    } else {
        assert(t.drop_last() =~= s.drop_last().update(i, v));
        assert(t.last() == s.last());
        lemma_count_update(s.drop_last(), i, v);
    }
}

/// The walk's invariant tying the state vector, the resolving path and the
/// resolved order together: states and registry line up index by index, the
/// resolved capabilities are exactly the order's members, the resolving
/// ones exactly the path's, and the order is a valid resolution order.
pub open spec fn states_ok(
    reg: Registry,
    ctx: Context,
    s: Seq<CapState>,
    path: Seq<Seq<char>>,
    order: Seq<Seq<char>>,
) -> bool {
    &&& s.len() == reg.capabilities@.len()
    &&& forall|i: int|
        0 <= i < s.len() ==> ((#[trigger] s[i]) is Resolved <==> order.contains(
            reg.capabilities@[i].name@,
        ))
    &&& forall|i: int|
        0 <= i < s.len() ==> ((#[trigger] s[i]) is Resolving <==> path.contains(
            reg.capabilities@[i].name@,
        ))
    &&& forall|n: Seq<char>| #[trigger] order.contains(n) ==> some_cap_named(reg.capabilities@, n)
    &&& resolved_order(reg, ctx, order)
}

/// How one capability resolves on this context, as the checker determines
/// it: through the provider at the given index, through a synthesized
/// getter, or not at all for the stated reason.
enum ResolverStep {
    UseProvider(usize),
    UseSynth,
    FailMissing,
    FailAmbiguous,
}

/// Determine how `cap` is wired on `ctx`: a valid table binding (whose
/// getter attribute, if any, is checked here; a formatter's accessor read
/// is checked by the caller after the requirements resolve), a synthesized
/// getter, or no resolver for the precise reason returned.
fn classify(reg: &Registry, ctx: &Context, cap: &String) -> (r: ResolverStep)
    requires
        reg.wf(),
        ctx.wf(),
    ensures
        r matches ResolverStep::UseProvider(pj) ==> some_cap_named(reg.capabilities@, cap@)
            && some_provider_entry(*reg, *ctx, cap@) && (pj as int) < reg.providers@.len()
            && the_provider_idx(*reg, *ctx, cap@) == pj as int && (reads_attr(
            reg.providers@[pj as int].behavior,
        ) is Some ==> behavior_ok(*reg, *ctx, reg.providers@[pj as int].behavior)),
        r is UseSynth ==> resolves_by_synth(*reg, *ctx, cap@),
        r is FailMissing ==> missing_at(*reg, *ctx, cap@),
        r is FailAmbiguous ==> ambiguous_at(*reg, *ctx, cap@),
{
    let ci = match reg.find_capability(cap) {
        None => {
            proof {
                if resolves_by_synth(*reg, *ctx, cap@) {
                    let k = choose|k: int|
                        0 <= k < reg.capabilities@.len() && (#[trigger] reg.capabilities@[k]).name@
                            == cap@ && reg.capabilities@[k].accessor_attr is Some;
                    assert(some_cap_named(reg.capabilities@, cap@));
                }
            }
            return ResolverStep::FailMissing;
        },
        Some(ci) => ci,
    };
    match ctx.table.lookup(cap) {
        Some(bi) => {
            let pname = &ctx.table.bindings[bi].provider;
            match reg.find_provider(pname) {
                None => {
                    proof {
                        lemma_no_entry_unknown_provider(*reg, *ctx, cap@, bi as int);
                    }
                    ResolverStep::FailMissing
                },
                Some(pj) => {
                    if reg.providers[pj].implements == *cap {
                        proof {
                            lemma_the_provider(*reg, *ctx, cap@, bi as int, pj as int);
                        }
                        match &reg.providers[pj].behavior {
                            Behavior::ReadAttr { attr } => {
                                match synthesize_getter(&ctx.attributes, attr) {
                                    SynthOutcome::Getter(_) => ResolverStep::UseProvider(pj),
                                    SynthOutcome::NoMatch => ResolverStep::FailMissing,
                                    SynthOutcome::Ambiguous => ResolverStep::FailAmbiguous,
                                }
                            },
                            Behavior::Format { .. } => ResolverStep::UseProvider(pj),
                        }
                    } else {
                        proof {
                            lemma_no_entry_mismatch(*reg, *ctx, cap@, bi as int, pj as int);
                        }
                        ResolverStep::FailMissing
                    }
                },
            }
        },
        None => {
            proof {
                lemma_no_binding_no_entry(*reg, *ctx, cap@);
            }
            match &reg.capabilities[ci].accessor_attr {
                None => {
                    proof {
                        lemma_not_accessor(*reg, cap@, ci as int);
                    }
                    ResolverStep::FailMissing
                },
                Some(slot) => {
                    proof {
                        lemma_the_cap(*reg, cap@, ci as int);
                    }
                    match synthesize_getter(&ctx.attributes, slot) {
                        SynthOutcome::Getter(_) => ResolverStep::UseSynth,
                        SynthOutcome::NoMatch => ResolverStep::FailMissing,
                        SynthOutcome::Ambiguous => ResolverStep::FailAmbiguous,
                    }
                },
            }
        },
    }
}

/// Build the reported requirement chain: the current path with the failing
/// capability appended.
fn make_error(path: &Vec<String>, cap: &String, reason: Reason) -> (e: ResolveError)
    ensures
        names_of(e.chain@) == names_of(path@).push(cap@),
        e.capability@ == cap@,
        e.reason == reason,
{
    let mut chain: Vec<String> = Vec::new();
    let mut i: usize = 0;
    while i < path.len()
        invariant
            0 <= i <= path@.len(),
            chain@ =~= path@.take(i as int),
        decreases path@.len() - i,
    {
        chain.push(path[i].clone());
        proof {
            assert(chain@ =~= path@.take(i + 1));
        }
        i += 1;
    }
    proof {
        assert(chain@ =~= path@);
    }
    chain.push(cap.clone());
    let e = ResolveError { capability: cap.clone(), chain, reason };
    proof {
        assert(names_of(e.chain@) =~= names_of(path@).push(cap@));
    }
    e
}

/// Resolving an unresolved capability whose resolver requires nothing (a
/// synthesized getter) preserves the walk invariant directly.
proof fn lemma_synth_step(
    reg: Registry,
    ctx: Context,
    s: Seq<CapState>,
    path: Seq<Seq<char>>,
    order: Seq<Seq<char>>,
    ci: int,
)
    requires
        reg.wf(),
        ctx.wf(),
        states_ok(reg, ctx, s, path, order),
        0 <= ci < s.len(),
        s[ci] is Unresolved,
        has_resolver(reg, ctx, reg.capabilities@[ci].name@),
        requires_of(reg, ctx, reg.capabilities@[ci].name@) == Seq::<Seq<char>>::empty(),
    ensures
        states_ok(
            reg,
            ctx,
            s.update(ci, CapState::Resolved),
            path,
            order.push(reg.capabilities@[ci].name@),
        ),
        advanced(s, s.update(ci, CapState::Resolved)),
        order.push(reg.capabilities@[ci].name@).contains(reg.capabilities@[ci].name@),
        forall|n: Seq<char>|
            order.contains(n) ==> order.push(reg.capabilities@[ci].name@).contains(n),
{
    lemma_mark_step(reg, ctx, s, path, order, ci);
    lemma_finish_step(
        reg,
        ctx,
        s,
        s.update(ci, CapState::Resolving),
        path,
        order,
        order,
        ci,
    );
    assert(s.update(ci, CapState::Resolving).update(ci, CapState::Resolved) =~= s.update(
        ci,
        CapState::Resolved,
    ));
}

/// A requirement chain extends by one link through the resolver of its last
/// capability.
proof fn lemma_chain_extend(
    reg: Registry,
    ctx: Context,
    chain: Seq<Seq<char>>,
    cap: Seq<char>,
    req: Seq<char>,
)
    requires
        chain_to(reg, ctx, chain),
        chain.last() == cap,
        chain_step(reg, ctx, cap, req),
    ensures
        chain_to(reg, ctx, chain.push(req)),
{
    let c2 = chain.push(req);
    assert(c2[0] == chain[0]);
    assert forall|i: int|
        0 <= i < c2.len() - 1 implies chain_step(reg, ctx, #[trigger] c2[i], c2[i + 1]) by {
        if i < chain.len() - 1 {
            assert(c2[i] == chain[i] && c2[i + 1] == chain[i + 1]);
        } else {
            assert(c2[i] == chain[i] && chain[i] == chain.last());
            assert(c2[i + 1] == req);
        }
    }
}

/// Marking an unresolved capability as resolving, while pushing its name on
/// the path, preserves the walk invariant.
proof fn lemma_mark_step(
    reg: Registry,
    ctx: Context,
    s: Seq<CapState>,
    path: Seq<Seq<char>>,
    order: Seq<Seq<char>>,
    ci: int,
)
    requires
        reg.wf(),
        ctx.wf(),
        states_ok(reg, ctx, s, path, order),
        0 <= ci < s.len(),
        s[ci] is Unresolved,
    ensures
        states_ok(
            reg,
            ctx,
            s.update(ci, CapState::Resolving),
            path.push(reg.capabilities@[ci].name@),
            order,
        ),
{
    let name = reg.capabilities@[ci].name@;
    let s2 = s.update(ci, CapState::Resolving);
    let grown = path.push(name);
    assert forall|i: int|
        0 <= i < s2.len() implies ((#[trigger] s2[i]) is Resolved <==> order.contains(
        reg.capabilities@[i].name@,
    )) by {
        if i != ci {
            assert(s2[i] == s[i]);
        }
    }
    assert forall|i: int|
        0 <= i < s2.len() implies ((#[trigger] s2[i]) is Resolving <==> grown.contains(
        reg.capabilities@[i].name@,
    )) by {
        if i == ci {
            assert(grown[grown.len() - 1] == name);
        } else {
            assert(s2[i] == s[i]);
            if path.contains(reg.capabilities@[i].name@) {
                let j = choose|j: int| 0 <= j < path.len() && path[j] == reg.capabilities@[i].name@;
                assert(grown[j] == reg.capabilities@[i].name@);
            }
            if grown.contains(reg.capabilities@[i].name@) {
                let j = choose|j: int| 0 <= j < grown.len() && grown[j] == reg.capabilities@[i].name@;
                if j < path.len() {
                    assert(path[j] == reg.capabilities@[i].name@);
                } else {
                    assert(reg.capabilities@[i].name@ == name);
                    assert(false);
                }
            }
        }
    }
}

/// Marking a capability as resolved, appending it to the order and (for a
/// bound provider) popping it off the path preserves the walk invariant,
/// provided everything its resolver requires is already in the order.
proof fn lemma_finish_step(
    reg: Registry,
    ctx: Context,
    entry_states: Seq<CapState>,
    loop_states: Seq<CapState>,
    path0: Seq<Seq<char>>,
    order0: Seq<Seq<char>>,
    order_cur: Seq<Seq<char>>,
    ci: int,
)
    requires
        reg.wf(),
        ctx.wf(),
        states_ok(reg, ctx, entry_states, path0, order0),
        0 <= ci < entry_states.len(),
        entry_states[ci] is Unresolved,
        states_ok(reg, ctx, loop_states, path0.push(reg.capabilities@[ci].name@), order_cur),
        advanced(entry_states.update(ci, CapState::Resolving), loop_states),
        has_resolver(reg, ctx, reg.capabilities@[ci].name@),
        forall|m: int|
            0 <= m < requires_of(reg, ctx, reg.capabilities@[ci].name@).len() ==> order_cur.contains(
                #[trigger] requires_of(reg, ctx, reg.capabilities@[ci].name@)[m],
            ),
        forall|n: Seq<char>| order0.contains(n) ==> order_cur.contains(n),
    ensures
        states_ok(
            reg,
            ctx,
            loop_states.update(ci, CapState::Resolved),
            path0,
            order_cur.push(reg.capabilities@[ci].name@),
        ),
        advanced(entry_states, loop_states.update(ci, CapState::Resolved)),
        order_cur.push(reg.capabilities@[ci].name@).contains(reg.capabilities@[ci].name@),
        forall|n: Seq<char>|
            order0.contains(n) ==> order_cur.push(reg.capabilities@[ci].name@).contains(n),
{
    let name = reg.capabilities@[ci].name@;
    let marked = entry_states.update(ci, CapState::Resolving);
    let s2 = loop_states.update(ci, CapState::Resolved);
    let walked = path0.push(name);
    let order2 = order_cur.push(name);
    assert(marked[ci] is Resolving);
    assert(loop_states[ci] is Resolving);
    assert(!order_cur.contains(name));
    assert(!path0.contains(name)) by {
        if path0.contains(name) {
            assert(entry_states[ci] is Resolving);
        }
    }
    assert(order2[order2.len() - 1] == name);
    // membership in the grown order is membership in the old order or the
    // new name itself
    assert forall|n: Seq<char>| order_cur.contains(n) implies order2.contains(n) by {
        let j = choose|j: int| 0 <= j < order_cur.len() && order_cur[j] == n;
        assert(order2[j] == n);
    }
    assert forall|n: Seq<char>| order2.contains(n) && n != name implies order_cur.contains(n) by {
        let j = choose|j: int| 0 <= j < order2.len() && order2[j] == n;
        assert(j < order_cur.len());
        assert(order_cur[j] == n);
    }
    // the resolved set is exactly the new order's membership
    assert forall|i: int|
        0 <= i < s2.len() implies ((#[trigger] s2[i]) is Resolved <==> order2.contains(
        reg.capabilities@[i].name@,
    )) by {
        if i != ci {
            assert(s2[i] == loop_states[i]);
            if order2.contains(reg.capabilities@[i].name@) && reg.capabilities@[i].name@ == name {
                assert(false);
            }
        }
    }
    // the resolving set is exactly the restored path's membership
    assert forall|i: int|
        0 <= i < s2.len() implies ((#[trigger] s2[i]) is Resolving <==> path0.contains(
        reg.capabilities@[i].name@,
    )) by {
        if i != ci {
            assert(s2[i] == loop_states[i]);
            if path0.contains(reg.capabilities@[i].name@) {
                let j = choose|j: int| 0 <= j < path0.len() && path0[j] == reg.capabilities@[i].name@;
                assert(walked[j] == reg.capabilities@[i].name@);
                assert(walked.contains(reg.capabilities@[i].name@));
            }
            if loop_states[i] is Resolving {
                assert(walked.contains(reg.capabilities@[i].name@));
                let j = choose|j: int| 0 <= j < walked.len() && walked[j] == reg.capabilities@[i].name@;
                if j < path0.len() {
                    assert(path0[j] == reg.capabilities@[i].name@);
                } else {
                    assert(reg.capabilities@[i].name@ == name);
                    assert(false);
                }
            }
        }
    }
    // every order member is a declared capability
    assert forall|n: Seq<char>| #[trigger] order2.contains(n) implies some_cap_named(
        reg.capabilities@,
        n,
    ) by {
        if n != name {
            assert(order_cur.contains(n));
        } else {
            assert(reg.capabilities@[ci].name@ == n);
        }
    }
    // the grown order is still a valid resolution order
    assert forall|a: int, b: int| 0 <= a < b < order2.len() implies order2[a] != order2[b] by {
        if b < order_cur.len() {
            assert(order2[a] == order_cur[a] && order2[b] == order_cur[b]);
        } else {
            assert(order2[b] == name);
            assert(order2[a] == order_cur[a]);
            if order2[a] == name {
                assert(order_cur.contains(name));
            }
        }
    }
    assert forall|i: int| 0 <= i < order2.len() implies has_resolver(reg, ctx, #[trigger] order2[i]) by {
        if i < order_cur.len() {
            assert(order2[i] == order_cur[i]);
        }
    }
    assert forall|i: int, k: int|
        0 <= i < order2.len() && 0 <= k < requires_of(reg, ctx, order2[i]).len() implies order2.take(
        i,
    ).contains(#[trigger] requires_of(reg, ctx, order2[i])[k]) by {
        if i < order_cur.len() {
            assert(order2[i] == order_cur[i]);
            assert(order_cur.take(i).contains(requires_of(reg, ctx, order_cur[i])[k]));
            assert(order2.take(i) =~= order_cur.take(i));
        } else {
            assert(order2[i] == name);
            assert(order_cur.contains(requires_of(reg, ctx, name)[k]));
            assert(order2.take(i) =~= order_cur);
        }
    }
    // the whole step only moves capabilities forward
    assert forall|i: int|
        0 <= i < entry_states.len() implies ((#[trigger] entry_states[i]) is Resolving <==> s2[i]
        is Resolving) && ((#[trigger] entry_states[i]) is Resolved ==> s2[i] is Resolved) by {
        if i != ci {
            assert(marked[i] == entry_states[i]);
            assert(s2[i] == loop_states[i]);
        }
    }
}

/// Resolve the capability named `cap`, recursively resolving everything its
/// resolver requires.  `states` tracks the walk, `path` is the chain of
/// capabilities currently resolving (from an exposed root down to the one
/// that required `cap`), and `order` lists the already resolved capabilities
/// in resolution order.
#[verifier::loop_isolation(false)]
fn resolve_one(
    reg: &Registry,
    ctx: &Context,
    cap: &String,
    states: Vec<CapState>,
    path: &mut Vec<String>,
    order: Ghost<Seq<Seq<char>>>,
) -> (res: (Result<Vec<CapState>, ResolveError>, Ghost<Seq<Seq<char>>>))
    requires
        reg.wf(),
        ctx.wf(),
        states_ok(*reg, *ctx, states@, names_of(old(path)@), order@),
        chain_to(*reg, *ctx, names_of(old(path)@).push(cap@)),
    ensures
        final(path)@ == old(path)@,
        res.0 matches Ok(s2) ==> states_ok(*reg, *ctx, s2@, names_of(final(path)@), res.1@)
            && advanced(states@, s2@) && (forall|n: Seq<char>|
            order@.contains(n) ==> res.1@.contains(n)) && res.1@.contains(cap@),
        res.0 matches Err(e) ==> resolve_error_ok(*reg, *ctx, e) && !capability_complete(
            *reg,
            *ctx,
        ),
    decreases count_unresolved(states@),
{
    let ghost chain0 = names_of(path@).push(cap@);
    let ci = match reg.find_capability(cap) {
        None => {
            let e = make_error(path, cap, Reason::Missing);
            proof {
                if resolves_by_synth(*reg, *ctx, cap@) {
                    let k = choose|k: int|
                        0 <= k < reg.capabilities@.len() && (#[trigger] reg.capabilities@[k]).name@
                            == cap@ && reg.capabilities@[k].accessor_attr is Some;
                    assert(some_cap_named(reg.capabilities@, cap@));
                }
                lemma_unresolvable_blocks(*reg, *ctx, chain0, cap@);
            }
            return (Err(e), order);
        },
        Some(ci) => ci,
    };
    let st = states[ci];
    match st {
        CapState::Resolved => {
            proof {
                assert(order@.contains(reg.capabilities@[ci as int].name@));
            }
            (Ok(states), order)
        },
        CapState::Resolving => {
            let e = make_error(path, cap, Reason::Cyclic);
            proof {
                assert(names_of(path@).contains(reg.capabilities@[ci as int].name@));
                let j = choose|j: int|
                    0 <= j < names_of(path@).len() && names_of(path@)[j] == cap@;
                assert(chain0[j] == cap@);
                lemma_cycle_blocks(*reg, *ctx, chain0, cap@, j);
            }
            (Err(e), order)
        },
        CapState::Unresolved => {
            match classify(reg, ctx, cap) {
                ResolverStep::FailMissing => {
                    let e = make_error(path, cap, Reason::Missing);
                    proof {
                        lemma_unresolvable_blocks(*reg, *ctx, chain0, cap@);
                    }
                    (Err(e), order)
                },
                ResolverStep::FailAmbiguous => {
                    let e = make_error(path, cap, Reason::Ambiguous);
                    proof {
                        lemma_ambiguous_unresolved(*reg, *ctx, cap@);
                        lemma_unresolvable_blocks(*reg, *ctx, chain0, cap@);
                    }
                    (Err(e), order)
                },
                ResolverStep::UseSynth => {
                    let mut s2 = states;
                    s2[ci] = CapState::Resolved;
                    let ghost order2 = order@.push(cap@);
                    proof {
                        lemma_no_binding_no_entry(*reg, *ctx, cap@);
                        lemma_synth_step(*reg, *ctx, states@, names_of(path@), order@, ci as int);
                    }
                    (Ok(s2), Ghost(order2))
                },
                ResolverStep::UseProvider(pj) => {
                    let ghost entry_states = states@;
                    let mut cur = states;
                    cur[ci] = CapState::Resolving;
                    let ghost marked = cur@;
                    path.push(cap.clone());
                    let ghost order0 = order@;
                    let ghost mut order_cur = order@;
                    proof {
                        lemma_count_update(entry_states, ci as int, CapState::Resolving);
                        lemma_mark_step(*reg, *ctx, entry_states, names_of(old(path)@), order0, ci as int);
                        assert(names_of(path@) =~= names_of(old(path)@).push(cap@));
                    }
                    let ghost rn = names_of(reg.providers@[pj as int].requires@);
                    let mut k: usize = 0;
                    let n_req = reg.providers[pj].requires.len();
                    proof {
                        assert(the_provider(*reg, *ctx, cap@) == reg.providers@[pj as int]);
                        assert(reg.capabilities@[ci as int].name@ == cap@);
                        assert(some_cap_named(reg.capabilities@, cap@));
                    }
                    while k < n_req
                        invariant
                            0 <= k <= n_req,
                            path@ == old(path)@.push(*cap),
                            states_ok(*reg, *ctx, cur@, names_of(path@), order_cur),
                            advanced(marked, cur@),
                            count_unresolved(cur@) <= count_unresolved(entry_states) - 1,
                            forall|m: int| 0 <= m < k ==> order_cur.contains(rn[m]),
                            forall|n: Seq<char>| order0.contains(n) ==> order_cur.contains(n),
                        decreases n_req - k,
                    {
                        let req = &reg.providers[pj].requires[k];
                        proof {
                            assert(rn[k as int] == req@);
                            assert(names_of(the_provider(*reg, *ctx, cap@).requires@).contains(
                                req@,
                            ));
                            assert(chain_step(*reg, *ctx, cap@, req@));
                            assert(names_of(path@).push(req@) =~= chain0.push(req@));
                            lemma_chain_extend(*reg, *ctx, chain0, cap@, req@);
                            lemma_advanced_count(marked, cur@);
                        }
                        let (r, o2) = resolve_one(reg, ctx, req, cur, path, Ghost(order_cur));
                        match r {
                            Err(e) => {
                                path.pop();
                                proof {
                                    assert(path@ =~= old(path)@);
                                }
                                return (Err(e), Ghost(order_cur));
                            },
                            Ok(next) => {
                                proof {
                                    lemma_advanced_trans(marked, cur@, next@);
                                    lemma_advanced_count(marked, next@);
                                }
                                cur = next;
                                proof {
                                    order_cur = o2@;
                                }
                            },
                        }
                        k += 1;
                    }
                    path.pop();
                    proof {
                        assert(path@ =~= old(path)@);
                    }
                    match &reg.providers[pj].behavior {
                        Behavior::Format { uses, .. } => {
                            match read_accessor(reg, ctx, uses) {
                                Some(_) => {
                                    proof {
                                        assert(behavior_ok(
                                            *reg,
                                            *ctx,
                                            reg.providers@[pj as int].behavior,
                                        ));
                                    }
                                },
                                None => {
                                    // the formatter's accessor read fails on
                                    // this context: the capability is
                                    // missing even though its binding is
                                    // valid
                                    let e = make_error(path, cap, Reason::Missing);
                                    proof {
                                        let (bi2, pj2): (int, int) = choose|bi2: int, pj2: int|
                                            provider_entry(*reg, *ctx, cap@, bi2, pj2);
                                        assert(binding_for(ctx.table.bindings@, cap@, bi2));
                                        assert(some_binding_for(ctx.table.bindings@, cap@));
                                        assert(!has_resolver(*reg, *ctx, cap@));
                                        assert(missing_at(*reg, *ctx, cap@));
                                        lemma_unresolvable_blocks(*reg, *ctx, chain0, cap@);
                                    }
                                    return (Err(e), Ghost(order_cur));
                                },
                            }
                        },
                        Behavior::ReadAttr { .. } => {},
                    }
                    let ghost loop_states = cur@;
                    cur[ci] = CapState::Resolved;
                    let ghost order2 = order_cur.push(cap@);
                    proof {
                        assert(resolves_by_table(*reg, *ctx, cap@));
                        assert(requires_of(*reg, *ctx, cap@) == rn);
                        assert forall|m: int|
                            0 <= m < requires_of(*reg, *ctx, cap@).len() implies order_cur.contains(
                            #[trigger] requires_of(*reg, *ctx, cap@)[m],
                        ) by {
                            assert(requires_of(*reg, *ctx, cap@)[m] == rn[m]);
                            assert(order_cur.contains(rn[m]));
                        }
                        lemma_finish_step(
                            *reg,
                            *ctx,
                            entry_states,
                            loop_states,
                            names_of(old(path)@),
                            order0,
                            order_cur,
                            ci as int,
                        );
                    }
                    (Ok(cur), Ghost(order2))
                },
            }
        },
    }
}

/// The resolution checker: certify that `ctx` is capability-complete over
/// the definitions in `reg`, or report the failing capability, the chain of
/// requirements that reached it, and the reason.
///
/// The check succeeds exactly when the context is capability-complete:
/// every capability it exposes, and everything the wired providers
/// transitively require, reaches a resolver with no cycle and no ambiguity.
/// Once certified, every exposed capability invokes to a value: the check
/// replaces all runtime error handling for wiring mistakes.
#[verifier::loop_isolation(false)]
pub fn check_context(reg: &Registry, ctx: &Context) -> (r: Result<(), ResolveError>)
    requires
        reg.wf(),
        ctx.wf(),
    ensures
        r is Ok <==> capability_complete(*reg, *ctx),
        r is Ok ==> forall|e: Seq<char>|
            ctx.exposed_names().contains(e) ==> spec_invoke(*reg, *ctx, e) is Some,
        r matches Err(e) ==> resolve_error_ok(*reg, *ctx, e),
{
    let mut states: Vec<CapState> = Vec::new();
    let mut i: usize = 0;
    while i < reg.capabilities.len()
        invariant
            0 <= i <= reg.capabilities@.len(),
            states@.len() == i,
            forall|j: int| 0 <= j < i ==> (#[trigger] states@[j]) is Unresolved,
        decreases reg.capabilities@.len() - i,
    {
        states.push(CapState::Unresolved);
        i += 1;
    }
    let mut path: Vec<String> = Vec::new();
    let ghost mut order: Seq<Seq<char>> = Seq::empty();
    let mut cur = states;
    let mut e_i: usize = 0;
    while e_i < ctx.exposes.len()
        invariant
            0 <= e_i <= ctx.exposes@.len(),
            path@ == Seq::<String>::empty(),
            states_ok(*reg, *ctx, cur@, names_of(path@), order),
            forall|m: int| 0 <= m < e_i ==> order.contains(ctx.exposed_names()[m]),
        decreases ctx.exposes@.len() - e_i,
    {
        let cap = &ctx.exposes[e_i];
        proof {
            let chain = names_of(path@).push(cap@);
            assert(ctx.exposed_names()[e_i as int] == cap@);
            assert(ctx.exposed_names().contains(cap@));
            assert(chain[0] == cap@);
            assert(chain_to(*reg, *ctx, chain));
        }
        let (r, o2) = resolve_one(reg, ctx, cap, cur, &mut path, Ghost(order));
        match r {
            Err(e) => {
                return Err(e);
            },
            Ok(next) => {
                cur = next;
                proof {
                    order = o2@;
                }
            },
        }
        e_i += 1;
    }
    proof {
        assert forall|e: Seq<char>| ctx.exposed_names().contains(e) implies order.contains(e) by {
            let m = choose|m: int|
                0 <= m < ctx.exposed_names().len() && ctx.exposed_names()[m] == e;
            assert(order.contains(ctx.exposed_names()[m]));
        }
        assert(complete_order(*reg, *ctx, order));
        assert forall|e: Seq<char>| ctx.exposed_names().contains(e) implies spec_invoke(
            *reg,
            *ctx,
            e,
        ) is Some by {
            lemma_complete_exposed_invokes(*reg, *ctx, e);
        }
    }
    Ok(())
}

} // verus!
