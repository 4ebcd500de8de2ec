//! Invoking a capability on a context.
//!
//! Invocation evaluates the provider wired to the capability — through the
//! delegation table, or through a synthesized getter when the table is
//! silent — on the context's own attributes.  The result is a pure function
//! of the registry, the context and the capability identifier: no hidden
//! state can make two invocations of the same capability on the same
//! unmodified context disagree.

use vstd::prelude::*;
use vstd::string::StringExecFns;
use crate::context::Context;
use crate::model::{AttrValue, Attribute, Behavior, some_cap_named};
use crate::registry::Registry;
use crate::resolution::{
    accessor_value, capability_complete, complete_order, has_resolver, lemma_matched_text,
    lemma_no_binding_no_entry, lemma_no_entry_mismatch, lemma_no_entry_unknown_provider,
    lemma_not_accessor, lemma_the_cap, lemma_the_provider, matched_text, resolves_by_synth,
    resolves_by_table, the_accessor_slot, the_provider,
};
use crate::synthesis::{SynthOutcome, match_count, synthesize_getter};

verus! {

/// What invoking `cap` returns: the text of the uniquely matching attribute
/// for a getter, the formatted accessor value for a formatter, and nothing
/// when the capability has no resolver on this context.
pub open spec fn spec_invoke(reg: Registry, ctx: Context, cap: Seq<char>) -> Option<Seq<char>> {
    if resolves_by_table(reg, ctx, cap) {
        match the_provider(reg, ctx, cap).behavior {
            Behavior::ReadAttr { attr } => Some(matched_text(ctx.attributes@, attr@)),
            Behavior::Format { prefix, uses, suffix } => match accessor_value(reg, ctx, uses@) {
                Some(v) => Some(prefix@ + v + suffix@),
                None => None,
            },
        }
    } else if resolves_by_synth(reg, ctx, cap) {
        match the_accessor_slot(reg, cap) {
            Some(slot) => Some(matched_text(ctx.attributes@, slot)),
            None => None,
        }
    } else {
        None
    }
}

/// `r` is exactly what invoking `cap` on `ctx` may return.
pub open spec fn invoke_returns(
    reg: Registry,
    ctx: Context,
    cap: Seq<char>,
    r: Option<String>,
) -> bool {
    match r {
        Some(s) => spec_invoke(reg, ctx, cap) == Some(s@),
        None => spec_invoke(reg, ctx, cap) is None,
    }
}

/// The text of the unique attribute matching `slot`, when the match is
/// unique.
fn read_matched(attrs: &Vec<Attribute>, slot: &String) -> (r: Option<String>)
    ensures
        r matches Some(s) ==> match_count(attrs@, slot@) == 1 && s@ == matched_text(attrs@, slot@),
        r is None ==> match_count(attrs@, slot@) != 1,
{
    match synthesize_getter(attrs, slot) {
        SynthOutcome::Getter(i) => match &attrs[i].value {
            AttrValue::Text(s) => {
                proof {
                    lemma_matched_text(attrs@, slot@, i as int);
                }
                Some(s.clone())
            },
            AttrValue::Binary(_) => {
                proof {
                    assert(false);
                }
                None
            },
        },
        SynthOutcome::NoMatch => None,
        SynthOutcome::Ambiguous => None,
    }
}

/// Read the accessor capability `cap` on `ctx`: through its bound getter
/// provider, or through getter synthesis when the table is silent.
pub fn read_accessor(reg: &Registry, ctx: &Context, cap: &String) -> (r: Option<String>)
    requires
        reg.wf(),
        ctx.wf(),
    ensures
        r matches Some(s) ==> accessor_value(*reg, *ctx, cap@) == Some(s@),
        r is None ==> accessor_value(*reg, *ctx, cap@) is None,
{
    let ci = match reg.find_capability(cap) {
        None => {
            return None;
        },
        Some(ci) => ci,
    };
    match ctx.table.lookup(cap) {
        Some(bi) => {
            let pname = &ctx.table.bindings[bi].provider;
            match reg.find_provider(pname) {
                None => {
                    proof {
                        lemma_no_entry_unknown_provider(*reg, *ctx, cap@, bi as int);
                    }
                    None
                },
                Some(pj) => {
                    if reg.providers[pj].implements == *cap {
                        proof {
                            lemma_the_provider(*reg, *ctx, cap@, bi as int, pj as int);
                        }
                        match &reg.providers[pj].behavior {
                            Behavior::ReadAttr { attr } => read_matched(&ctx.attributes, attr),
                            Behavior::Format { .. } => None,
                        }
                    } else {
                        proof {
                            lemma_no_entry_mismatch(*reg, *ctx, cap@, bi as int, pj as int);
                        }
                        None
                    }
                },
            }
        },
        None => {
            match &reg.capabilities[ci].accessor_attr {
                None => {
                    proof {
                        lemma_not_accessor(*reg, cap@, ci as int);
                        lemma_no_binding_no_entry(*reg, *ctx, cap@);
                    }
                    None
                },
                Some(slot) => {
                    proof {
                        lemma_the_cap(*reg, cap@, ci as int);
                        lemma_no_binding_no_entry(*reg, *ctx, cap@);
                    }
                    read_matched(&ctx.attributes, slot)
                },
            }
        },
    }
}

/// Invoke the capability named `cap` on `ctx`.  The call returns a value
/// exactly when `cap` has a resolver on `ctx`, and the value is fully
/// determined by the registry, the context and the capability identifier.
pub fn invoke(reg: &Registry, ctx: &Context, cap: &String) -> (r: Option<String>)
    requires
        reg.wf(),
        ctx.wf(),
    ensures
        invoke_returns(*reg, *ctx, cap@, r),
{
    let ci = match reg.find_capability(cap) {
        None => {
            return None;
        },
        Some(ci) => ci,
    };
    match ctx.table.lookup(cap) {
        Some(bi) => {
            let pname = &ctx.table.bindings[bi].provider;
            match reg.find_provider(pname) {
                None => {
                    proof {
                        lemma_no_entry_unknown_provider(*reg, *ctx, cap@, bi as int);
                    }
                    None
                },
                Some(pj) => {
                    if reg.providers[pj].implements == *cap {
                        proof {
                            lemma_the_provider(*reg, *ctx, cap@, bi as int, pj as int);
                        }
                        match &reg.providers[pj].behavior {
                            Behavior::ReadAttr { attr } => read_matched(&ctx.attributes, attr),
                            Behavior::Format { prefix, uses, suffix } => {
                                match read_accessor(reg, ctx, uses) {
                                    Some(v) => Some(
                                        prefix.clone().concat(v.as_str()).concat(suffix.as_str()),
                                    ),
                                    None => None,
                                }
                            },
                        }
                    } else {
                        proof {
                            lemma_no_entry_mismatch(*reg, *ctx, cap@, bi as int, pj as int);
                        }
                        None
                    }
                },
            }
        },
        None => {
            match &reg.capabilities[ci].accessor_attr {
                None => {
                    proof {
                        lemma_not_accessor(*reg, cap@, ci as int);
                        lemma_no_binding_no_entry(*reg, *ctx, cap@);
                    }
                    None
                },
                Some(slot) => {
                    proof {
                        lemma_the_cap(*reg, cap@, ci as int);
                        lemma_no_binding_no_entry(*reg, *ctx, cap@);
                    }
                    read_matched(&ctx.attributes, slot)
                },
            }
        },
    }
}

/// Invocation is deterministic: two invocations of the same capability on
/// the same unmodified context return identical results.
pub proof fn lemma_invoke_deterministic(
    reg: Registry,
    ctx: Context,
    cap: Seq<char>,
    r1: Option<String>,
    r2: Option<String>,
)
    requires
        invoke_returns(reg, ctx, cap, r1),
        invoke_returns(reg, ctx, cap, r2),
    ensures
        r1 is Some <==> r2 is Some,
        r1 matches Some(s1) ==> (r2 matches Some(s2) && s1@ == s2@),
{
}

/// A capability with a resolver always yields a value when invoked.
pub proof fn lemma_resolver_invokes(reg: Registry, ctx: Context, cap: Seq<char>)
    requires
        reg.wf(),
        ctx.wf(),
        has_resolver(reg, ctx, cap),
    ensures
        spec_invoke(reg, ctx, cap) is Some,
{
}

/// On a capability-complete context, every exposed capability yields a
/// value when invoked: certification replaces all runtime wiring failures.
pub proof fn lemma_complete_exposed_invokes(reg: Registry, ctx: Context, e: Seq<char>)
    requires
        reg.wf(),
        ctx.wf(),
        capability_complete(reg, ctx),
        ctx.exposed_names().contains(e),
    ensures
        spec_invoke(reg, ctx, e) is Some,
{
    let order = choose|order: Seq<Seq<char>>| complete_order(reg, ctx, order);
    assert(order.contains(e));
    let j = choose|j: int| 0 <= j < order.len() && order[j] == e;
    assert(has_resolver(reg, ctx, order[j]));
    lemma_resolver_invokes(reg, ctx, e);
}

} // verus!
