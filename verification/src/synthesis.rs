//! Getter synthesis: deriving a trivial accessor implementation from a
//! context's own attributes by exact name match.
//!
//! An attribute *matches* an accessor's slot name when its name is exactly
//! equal and its value satisfies the display-style bound (it is text).
//! Synthesis succeeds only when exactly one attribute matches: no match and
//! more than one match are both failures, never a guess.

use vstd::prelude::*;
use crate::model::{Attribute, AttrValue};

verus! {

/// Whether attribute `a` satisfies an accessor exposing the slot named
/// `slot`: the names are exactly equal and the value meets the accessor's
/// display-style bound.
pub open spec fn attr_matches(a: Attribute, slot: Seq<char>) -> bool {
    a.name@ == slot && a.value is Text
}

/// How many attributes of `attrs` match the slot named `slot`.
pub open spec fn match_count(attrs: Seq<Attribute>, slot: Seq<char>) -> nat
    decreases attrs.len(),
{
    if attrs.len() == 0 {
        0
    } else {
        match_count(attrs.drop_last(), slot) + if attr_matches(attrs.last(), slot) {
            1nat
        } else {
            0nat
        }
    }
}

/// No attribute matches exactly when the match count is zero.
pub proof fn lemma_match_count_zero(attrs: Seq<Attribute>, slot: Seq<char>)
    ensures
        match_count(attrs, slot) == 0 <==> (forall|i: int|
            0 <= i < attrs.len() ==> !attr_matches(#[trigger] attrs[i], slot)),
    decreases attrs.len(),
{
    if attrs.len() > 0 {
        lemma_match_count_zero(attrs.drop_last(), slot);
        assert(attrs.last() == attrs[attrs.len() - 1]);
        assert(forall|i: int| 0 <= i < attrs.len() - 1 ==> attrs.drop_last()[i] == #[trigger] attrs[i]);
    }
}

/// Two distinct matching attributes force a match count of at least two.
pub proof fn lemma_two_matches(attrs: Seq<Attribute>, slot: Seq<char>, i: int, j: int)
    requires
        0 <= i < j < attrs.len(),
        attr_matches(attrs[i], slot),
        attr_matches(attrs[j], slot),
    ensures
        match_count(attrs, slot) >= 2,
    decreases attrs.len(),
{
    if j == attrs.len() - 1 {
        assert(attrs.last() == attrs[j]);
        assert(attrs.drop_last()[i] == attrs[i]);
        if match_count(attrs.drop_last(), slot) == 0 {
            lemma_match_count_zero(attrs.drop_last(), slot);
        }
    } else {
        assert(attrs.drop_last()[i] == attrs[i]);
        assert(attrs.drop_last()[j] == attrs[j]);
        lemma_two_matches(attrs.drop_last(), slot, i, j);
    }
}

/// With a match count of one, the match witness is unique.
pub proof fn lemma_unique_match(attrs: Seq<Attribute>, slot: Seq<char>, i: int, j: int)
    requires
        match_count(attrs, slot) == 1,
        0 <= i < attrs.len(),
        0 <= j < attrs.len(),
        attr_matches(attrs[i], slot),
        attr_matches(attrs[j], slot),
    ensures
        i == j,
{
    if i < j {
        lemma_two_matches(attrs, slot, i, j);
    } else if j < i {
        lemma_two_matches(attrs, slot, j, i);
    }
}

/// The prefix match count grows by one exactly at matching positions.
proof fn lemma_match_count_take_step(attrs: Seq<Attribute>, slot: Seq<char>, i: int)
    requires
        0 <= i < attrs.len(),
    ensures
        match_count(attrs.take(i + 1), slot) == match_count(attrs.take(i), slot) + if attr_matches(
            attrs[i],
            slot,
        ) {
            1nat
        } else {
            0nat
        },
{
    assert(attrs.take(i + 1).drop_last() =~= attrs.take(i));
    assert(attrs.take(i + 1).last() == attrs[i]);
}

/// The outcome of attempting to synthesize a getter for one accessor slot.
#[derive(Clone, Copy, Debug, PartialEq, Eq, Structural)]
pub enum SynthOutcome {
    /// Exactly one attribute matched; the getter reads the attribute at this
    /// index.
    Getter(usize),
    /// No attribute matched the slot name with a compatible value.
    NoMatch,
    /// More than one attribute matched; synthesis refuses to guess.
    Ambiguous,
}

/// Whether attribute `a` matches the slot named `slot`.
pub fn attr_matches_exec(a: &Attribute, slot: &String) -> (r: bool)
    ensures
        r == attr_matches(*a, slot@),
{
    match &a.value {
        AttrValue::Text(_) => a.name == *slot,
        AttrValue::Binary(_) => false,
    }
}

/// Synthesize a getter for the accessor slot named `slot` from the attribute
/// set `attrs`: the result is a getter exactly when exactly one attribute
/// matches, a refusal naming the failure otherwise.
pub fn synthesize_getter(attrs: &Vec<Attribute>, slot: &String) -> (r: SynthOutcome)
    ensures
        r matches SynthOutcome::Getter(i) ==> match_count(attrs@, slot@) == 1 && i < attrs@.len()
            && attr_matches(attrs@[i as int], slot@),
        r is NoMatch <==> match_count(attrs@, slot@) == 0,
        r is Ambiguous <==> match_count(attrs@, slot@) >= 2,
{
    let mut i: usize = 0;
    let mut count: usize = 0;
    let mut first: usize = 0;
    while i < attrs.len()
        invariant
            0 <= i <= attrs.len(),
            count == match_count(attrs@.take(i as int), slot@),
            count <= i,
            count >= 1 ==> first < i && attr_matches(attrs@[first as int], slot@),
        decreases attrs.len() - i,
    {
        proof {
            lemma_match_count_take_step(attrs@, slot@, i as int);
        }
        if attr_matches_exec(&attrs[i], slot) {
            if count == 0 {
                first = i;
            }
            count += 1;
        }
        i += 1;
    }
    proof {
        assert(attrs@.take(attrs@.len() as int) =~= attrs@);
    }
    if count == 0 {
        SynthOutcome::NoMatch
    } else if count == 1 {
        SynthOutcome::Getter(first)
    } else {
        SynthOutcome::Ambiguous
    }
}

} // verus!
