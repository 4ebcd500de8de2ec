//! The general laws of resolution.
//!
//! Each proof function here states a property of every well-formed registry
//! and context: a requirement reached from an exposed capability must itself
//! be resolved in any complete order; a reachable capability with no
//! resolver rules out capability-completeness; and a reachable requirement
//! cycle rules it out as well.

use vstd::prelude::*;
use crate::context::Context;
use crate::registry::Registry;
use crate::context::{binding_for, some_binding_for};
use crate::resolution::{
    capability_complete, chain_step, chain_to, complete_order, has_resolver, provider_entry,
    requires_of, resolved_order, resolves_by_synth, resolves_by_table, some_provider_entry,
};

verus! {

/// The position of the capability named `x` in `order`; unique when the
/// order is duplicate-free and meaningful when `order` contains `x`.
pub open spec fn order_index(order: Seq<Seq<char>>, x: Seq<char>) -> int {
    choose|j: int| 0 <= j < order.len() && order[j] == x
}

/// In a duplicate-free order, `order_index` is the one position of `x`.
proof fn lemma_order_index(order: Seq<Seq<char>>, x: Seq<char>, j: int)
    requires
        forall|a: int, b: int| 0 <= a < b < order.len() ==> order[a] != order[b],
        0 <= j < order.len(),
        order[j] == x,
    ensures
        order_index(order, x) == j,
        order.contains(x),
{
    let j2 = order_index(order, x);
    assert(0 <= j2 < order.len() && order[j2] == x);
    if j < j2 || j2 < j {
        assert(false);
    }
}

/// In a resolution order, whatever a listed capability requires is listed
/// earlier: the requirement is resolved, and strictly precedes it.
///
/// This is the closure law: if the provider resolving `x` requires `y`, any
/// order in which `x` is resolved also resolves `y`, before `x`.
pub proof fn lemma_order_closed(
    reg: Registry,
    ctx: Context,
    order: Seq<Seq<char>>,
    x: Seq<char>,
    y: Seq<char>,
)
    requires
        resolved_order(reg, ctx, order),
        order.contains(x),
        requires_of(reg, ctx, x).contains(y),
    ensures
        order.contains(y),
        has_resolver(reg, ctx, y),
        order_index(order, y) < order_index(order, x),
{
    let ix = choose|j: int| 0 <= j < order.len() && order[j] == x;
    lemma_order_index(order, x, ix);
    let k = choose|k: int| 0 <= k < requires_of(reg, ctx, x).len() && requires_of(reg, ctx, x)[k]
        == y;
    assert(requires_of(reg, ctx, order[ix])[k] == y);
    assert(order.take(ix).contains(requires_of(reg, ctx, order[ix])[k]));
    let iy = choose|j: int| 0 <= j < order.take(ix).len() && order.take(ix)[j] == y;
    assert(order.take(ix)[iy] == order[iy]);
    lemma_order_index(order, y, iy);
}

/// A requirement step out of a capability that some order resolves is a
/// step the order itself took: the required capability is resolved earlier.
proof fn lemma_step_in_order(
    reg: Registry,
    ctx: Context,
    order: Seq<Seq<char>>,
    a: Seq<char>,
    b: Seq<char>,
)
    requires
        resolved_order(reg, ctx, order),
        order.contains(a),
        chain_step(reg, ctx, a, b),
    ensures
        order.contains(b),
        order_index(order, b) < order_index(order, a),
{
    let j = choose|j: int| 0 <= j < order.len() && order[j] == a;
    assert(has_resolver(reg, ctx, order[j]));
    assert(!resolves_by_synth(reg, ctx, a)) by {
        let (bi, pj): (int, int) = choose|bi: int, pj: int| provider_entry(reg, ctx, a, bi, pj);
        assert(binding_for(ctx.table.bindings@, a, bi));
        assert(some_binding_for(ctx.table.bindings@, a));
    }
    assert(resolves_by_table(reg, ctx, a));
    lemma_order_closed(reg, ctx, order, a, b);
}

/// Every link of a requirement chain appears in any complete order.
proof fn lemma_chain_in_order(
    reg: Registry,
    ctx: Context,
    order: Seq<Seq<char>>,
    chain: Seq<Seq<char>>,
    i: int,
)
    requires
        complete_order(reg, ctx, order),
        chain_to(reg, ctx, chain),
        0 <= i < chain.len(),
    ensures
        order.contains(chain[i]),
    decreases i,
{
    if i == 0 {
        assert(ctx.exposed_names().contains(chain[0]));
    } else {
        lemma_chain_in_order(reg, ctx, order, chain, i - 1);
        assert(chain_step(reg, ctx, chain[i - 1], chain[i]));
        lemma_step_in_order(reg, ctx, order, chain[i - 1], chain[i]);
    }
}

/// A capability reached by a requirement chain from the context's exposed
/// set but lacking a resolver rules out capability-completeness.
///
/// In particular, removing the binding (or the synthesis path) for a
/// capability that some bound provider requires makes resolution fail.
pub proof fn lemma_unresolvable_blocks(
    reg: Registry,
    ctx: Context,
    chain: Seq<Seq<char>>,
    cap: Seq<char>,
)
    requires
        chain_to(reg, ctx, chain),
        chain.last() == cap,
        !has_resolver(reg, ctx, cap),
    ensures
        !capability_complete(reg, ctx),
{
    if capability_complete(reg, ctx) {
        let order = choose|order: Seq<Seq<char>>| complete_order(reg, ctx, order);
        lemma_chain_in_order(reg, ctx, order, chain, chain.len() - 1);
        let j = choose|j: int| 0 <= j < order.len() && order[j] == cap;
        assert(has_resolver(reg, ctx, order[j]));
        assert(false);
    }
}

/// Along a requirement chain, positions in a complete order strictly
/// decrease.
proof fn lemma_chain_descends(
    reg: Registry,
    ctx: Context,
    order: Seq<Seq<char>>,
    chain: Seq<Seq<char>>,
    j: int,
    k: int,
)
    requires
        complete_order(reg, ctx, order),
        chain_to(reg, ctx, chain),
        0 <= j < k <= chain.len() - 1,
    ensures
        order_index(order, chain[k]) < order_index(order, chain[j]),
    decreases k - j,
{
    lemma_chain_in_order(reg, ctx, order, chain, k - 1);
    lemma_step_in_order(reg, ctx, order, chain[k - 1], chain[k]);
    if j < k - 1 {
        lemma_chain_descends(reg, ctx, order, chain, j, k - 1);
    }
}

/// A requirement chain that revisits its final capability is a cycle: the
/// capability transitively requires itself, and the context cannot be
/// capability-complete.  In particular resolution can neither succeed nor
/// walk such a cycle forever.
pub proof fn lemma_cycle_blocks(
    reg: Registry,
    ctx: Context,
    chain: Seq<Seq<char>>,
    cap: Seq<char>,
    j: int,
)
    requires
        chain_to(reg, ctx, chain),
        chain.last() == cap,
        0 <= j < chain.len() - 1,
        chain[j] == cap,
    ensures
        !capability_complete(reg, ctx),
{
    if capability_complete(reg, ctx) {
        let order = choose|order: Seq<Seq<char>>| complete_order(reg, ctx, order);
        lemma_chain_descends(reg, ctx, order, chain, j, chain.len() - 1);
        assert(chain[chain.len() - 1] == chain[j]);
        assert(false);
    }
}

} // verus!
