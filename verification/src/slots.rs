//! Slot binding: resolving a declared slot to the concrete type it takes on
//! a given context.
//!
//! A slot is a typeless placeholder; on a context it is bound to the
//! concrete type of the context attribute carrying the slot's name, and a
//! context binds each slot to at most one type.  The query here fails — it
//! reports no binding, it never guesses — when no attribute carries the
//! name or when several do.  Accessor capabilities are how slots become
//! reachable from a context's exposed set, so a reachable unbound slot
//! surfaces through the resolution checker as a failed accessor.

use vstd::prelude::*;
use crate::model::{AttrKind, Attribute, kind_of};

verus! {

/// Attribute `a` carries the slot name `slot` (any value shape binds).
pub open spec fn slot_matches(a: Attribute, slot: Seq<char>) -> bool {
    a.name@ == slot
}

/// How many attributes of `attrs` carry the slot name `slot`.
pub open spec fn slot_match_count(attrs: Seq<Attribute>, slot: Seq<char>) -> nat
    decreases attrs.len(),
{
    if attrs.len() == 0 {
        0
    } else {
        slot_match_count(attrs.drop_last(), slot) + if slot_matches(attrs.last(), slot) {
            1nat
        } else {
            0nat
        }
    }
}

/// Two distinct attributes with the slot's name force a count of at least
/// two.
pub proof fn lemma_two_slot_matches(attrs: Seq<Attribute>, slot: Seq<char>, i: int, j: int)
    requires
        0 <= i < j < attrs.len(),
        slot_matches(attrs[i], slot),
        slot_matches(attrs[j], slot),
    ensures
        slot_match_count(attrs, slot) >= 2,
    decreases attrs.len(),
{
    if j == attrs.len() - 1 {
        assert(attrs.last() == attrs[j]);
        assert(attrs.drop_last()[i] == attrs[i]);
        if slot_match_count(attrs.drop_last(), slot) == 0 {
            lemma_no_slot_match(attrs.drop_last(), slot);
        }
    } else {
        assert(attrs.drop_last()[i] == attrs[i]);
        assert(attrs.drop_last()[j] == attrs[j]);
        lemma_two_slot_matches(attrs.drop_last(), slot, i, j);
    }
}

/// No attribute carries the name exactly when the count is zero.
pub proof fn lemma_no_slot_match(attrs: Seq<Attribute>, slot: Seq<char>)
    ensures
        slot_match_count(attrs, slot) == 0 <==> (forall|i: int|
            0 <= i < attrs.len() ==> !slot_matches(#[trigger] attrs[i], slot)),
    decreases attrs.len(),
{
    if attrs.len() > 0 {
        lemma_no_slot_match(attrs.drop_last(), slot);
        assert(attrs.last() == attrs[attrs.len() - 1]);
        assert(forall|i: int| 0 <= i < attrs.len() - 1 ==> attrs.drop_last()[i] == #[trigger] attrs[i]);
    }
}

/// With exactly one carrier, the carrier is unique.
pub proof fn lemma_unique_slot_match(attrs: Seq<Attribute>, slot: Seq<char>, i: int, j: int)
    requires
        slot_match_count(attrs, slot) == 1,
        0 <= i < attrs.len(),
        0 <= j < attrs.len(),
        slot_matches(attrs[i], slot),
        slot_matches(attrs[j], slot),
    ensures
        i == j,
{
    if i < j {
        lemma_two_slot_matches(attrs, slot, i, j);
    } else if j < i {
        lemma_two_slot_matches(attrs, slot, j, i);
    }
}

/// The concrete type bound to `slot`: the shape of the unique attribute
/// carrying the slot's name.  Meaningful only when the count is one.
pub open spec fn bound_kind(attrs: Seq<Attribute>, slot: Seq<char>) -> AttrKind {
    let k = choose|k: int| 0 <= k < attrs.len() && slot_matches(#[trigger] attrs[k], slot);
    kind_of(attrs[k].value)
}

/// The prefix count grows by one exactly at carrying positions.
proof fn lemma_slot_count_take_step(attrs: Seq<Attribute>, slot: Seq<char>, i: int)
    requires
        0 <= i < attrs.len(),
    ensures
        slot_match_count(attrs.take(i + 1), slot) == slot_match_count(attrs.take(i), slot)
            + if slot_matches(attrs[i], slot) {
            1nat
        } else {
            0nat
        },
{
    assert(attrs.take(i + 1).drop_last() =~= attrs.take(i));
    assert(attrs.take(i + 1).last() == attrs[i]);
}

/// Query the concrete type that `attrs` bind to the slot named `slot`:
/// the unique carrying attribute's shape, or nothing when the slot is
/// unbound (no carrier) or over-bound (several carriers).
pub fn slot_binding(attrs: &Vec<Attribute>, slot: &String) -> (r: Option<AttrKind>)
    ensures
        r is Some <==> slot_match_count(attrs@, slot@) == 1,
        r matches Some(k) ==> k == bound_kind(attrs@, slot@),
{
    let mut i: usize = 0;
    let mut count: usize = 0;
    let mut first: usize = 0;
    while i < attrs.len()
        invariant
            0 <= i <= attrs.len(),
            count == slot_match_count(attrs@.take(i as int), slot@),
            count <= i,
            count >= 1 ==> first < i && slot_matches(attrs@[first as int], slot@),
        decreases attrs.len() - i,
    {
        proof {
            lemma_slot_count_take_step(attrs@, slot@, i as int);
        }
        if attrs[i].name == *slot {
            if count == 0 {
                first = i;
            }
            count += 1;
        }
        i += 1;
    }
    proof {
        assert(attrs@.take(attrs@.len() as int) =~= attrs@);
    }
    if count == 1 {
        proof {
            let k = choose|k: int| 0 <= k < attrs@.len() && slot_matches(#[trigger] attrs@[k], slot@);
            lemma_unique_slot_match(attrs@, slot@, first as int, k);
        }
        match &attrs[first].value {
            crate::model::AttrValue::Text(_) => Some(AttrKind::Text),
            crate::model::AttrValue::Binary(_) => Some(AttrKind::Binary),
        }
    } else {
        None
    }
}

} // verus!
