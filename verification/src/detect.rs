//! Finds the keys that changed between two scans.

use vstd::prelude::*;
use crate::keyset::{lemma_keys_below_none, lemma_listing, listing, KeySet};
use crate::layout::KEY_COUNT;

verus! {

/// The keys that changed between two scans.
#[derive(Debug, PartialEq, Eq)]
pub struct Transitions {
    /// The keys that are closed now and were open before, in ascending
    /// order.
    pub went_down: Vec<u8>,
    /// The keys that are open now and were closed before, in ascending
    /// order.
    pub went_up: Vec<u8>,
}

/// Compares the keys found closed by the scan before, `previous`, with those
/// found closed now, `current`.
pub fn diff(previous: &KeySet, current: &KeySet) -> (changes: Transitions)
    ensures
        changes.went_down@ == listing(current@.difference(previous@)),
        changes.went_up@ == listing(previous@.difference(current@)),
        forall|key: u8|
            #![trigger changes.went_down@.contains(key)]
            changes.went_down@.contains(key) <==> current@.contains(key) && !previous@.contains(
                key,
            ),
        forall|key: u8|
            #![trigger changes.went_up@.contains(key)]
            changes.went_up@.contains(key) <==> previous@.contains(key) && !current@.contains(key),
        forall|key: u8|
            #![trigger changes.went_down@.contains(key)]
            #![trigger changes.went_up@.contains(key)]
            !(changes.went_down@.contains(key) && changes.went_up@.contains(key)),
        current@ == previous@ ==> changes.went_down@.len() == 0 && changes.went_up@.len() == 0,
{
    let went_down = current.difference(previous).keys();
    let went_up = previous.difference(current).keys();
    proof {
        let down = current@.difference(previous@);
        let up = previous@.difference(current@);
        lemma_listing(down);
        lemma_listing(up);
        previous.lemma_in_range();
        current.lemma_in_range();
        if current@ == previous@ {
            lemma_keys_below_none(down, KEY_COUNT as nat);
            lemma_keys_below_none(up, KEY_COUNT as nat);
        }
    }
    Transitions { went_down, went_up }
}

} // verus!
