//! One poll cycle of the keypad: from the keys found closed to the requests
//! for the input sink.

use vstd::prelude::*;
use crate::action::Emission;
use crate::detect::diff;
use crate::dispatch::{key_pressed, key_released, run_mode, run_output, KeyEvent};
use crate::keyset::{lemma_keys_below_none, lemma_listing, listing, KeySet};
use crate::layout::KEY_COUNT;
use crate::mode::ModeState;
use crate::table::Tables;

verus! {

/// A press of each of `keys`, in order.
pub open spec fn presses(keys: Seq<u8>) -> Seq<KeyEvent> {
    Seq::new(keys.len(), |i: int| KeyEvent::Pressed(keys[i]))
}

/// A release of each of `keys`, in order.
pub open spec fn releases(keys: Seq<u8>) -> Seq<KeyEvent> {
    Seq::new(keys.len(), |i: int| KeyEvent::Released(keys[i]))
}

/// The events of one cycle: first a press of every key that is in `current`
/// and not in `previous`, then a release of every key that is in `previous`
/// and not in `current`, each group in ascending order of the keys.
pub open spec fn cycle_events(previous: Set<u8>, current: Set<u8>) -> Seq<KeyEvent> {
    presses(listing(current.difference(previous))) + releases(
        listing(previous.difference(current)),
    )
}

/// In the events of a cycle every press comes before every release, each
/// press is of a key that is closed now and was open before, and each
/// release is of a key that was closed before and is open now.
pub proof fn lemma_presses_before_releases(previous: Set<u8>, current: Set<u8>)
    ensures
        forall|i: int, j: int|
            #![trigger cycle_events(previous, current)[i], cycle_events(previous, current)[j]]
            0 <= i < cycle_events(previous, current).len() && 0 <= j < cycle_events(
                previous,
                current,
            ).len() && cycle_events(previous, current)[i] is Pressed && cycle_events(
                previous,
                current,
            )[j] is Released ==> i < j,
        forall|i: int|
            #![trigger cycle_events(previous, current)[i]]
            0 <= i < cycle_events(previous, current).len() ==> match cycle_events(
                previous,
                current,
            )[i] {
                KeyEvent::Pressed(key) => key < KEY_COUNT && current.contains(key)
                    && !previous.contains(key),
                KeyEvent::Released(key) => key < KEY_COUNT && previous.contains(key)
                    && !current.contains(key),
            },
{
    let downs = listing(current.difference(previous));
    let ups = listing(previous.difference(current));
    lemma_listing(current.difference(previous));
    lemma_listing(previous.difference(current));
    let events = cycle_events(previous, current);
    assert forall|i: int| #![trigger events[i]] 0 <= i < events.len() implies match events[i] {
        KeyEvent::Pressed(key) => key < KEY_COUNT && current.contains(key) && !previous.contains(
            key,
        ),
        KeyEvent::Released(key) => key < KEY_COUNT && previous.contains(key) && !current.contains(
            key,
        ),
    } by {
        if i < downs.len() {
            assert(downs.contains(downs[i]));
        } else {
            assert(ups.contains(ups[i - downs.len()]));
        }
    }
}

/// Two scans that found the same keys give no event.
pub proof fn lemma_no_change_no_event(keys: Set<u8>)
    ensures
        cycle_events(keys, keys) == Seq::<KeyEvent>::empty(),
{
    lemma_keys_below_none(keys.difference(keys), KEY_COUNT as nat);
}

/// What the keypad remembers from one cycle to the next.
#[derive(Clone, Copy, Debug, PartialEq, Eq)]
pub struct Keypad {
    /// The keys that the scan before found closed.
    pub previous: KeySet,
    /// The layers that are switched on.
    pub mode: ModeState,
}

impl Keypad {
    /// The keypad at start: no key was closed, and no layer is on.
    pub fn new() -> (keypad: Keypad)
        ensures
            keypad.previous@ == Set::<u8>::empty(),
            keypad.mode == (ModeState { alt_layer: false, text_layer: false, game_layer: false }),
    {
        Keypad { previous: KeySet::new(), mode: ModeState::new() }
    }

    /// Runs one cycle on the keys that the scan found closed. Every key that
    /// went down is handled before any key that went up, and the scan is
    /// then remembered for the next cycle. Returns the requests for the
    /// sink, in the order in which they are to be sent.
    pub fn cycle(&mut self, current: KeySet, tables: &Tables) -> (out: Vec<Emission>)
        ensures
            final(self).previous == current,
            final(self).mode == run_mode(
                old(self).mode,
                cycle_events(old(self).previous@, current@),
            ),
            out@ == run_output(
                *tables,
                old(self).mode,
                cycle_events(old(self).previous@, current@),
            ),
            current@ == old(self).previous@ ==> out@.len() == 0 && final(self).mode == old(
                self,
            ).mode,
    {
        let changes = diff(&self.previous, &current);
        let ghost start = self.mode;
        let ghost downs = presses(changes.went_down@);
        let ghost ups = releases(changes.went_up@);
        proof {
            lemma_listing(current@.difference(self.previous@));
            lemma_listing(self.previous@.difference(current@));
        }
        let mut out: Vec<Emission> = Vec::new();
        let mut i: usize = 0;
        while i < changes.went_down.len()
            invariant
                i <= changes.went_down@.len(),
                downs == presses(changes.went_down@),
                forall|n: int|
                    0 <= n < changes.went_down@.len() ==> changes.went_down@[n] < KEY_COUNT,
                self.mode == start,
                run_mode(start, downs.take(i as int)) == start,
                out@ == run_output(*tables, start, downs.take(i as int)),
            decreases changes.went_down@.len() - i,
        {
            let key = changes.went_down[i];
            let mut part = key_pressed(key, &self.mode, tables);
            out.append(&mut part);
            proof {
                assert(downs.take(i + 1).drop_last() =~= downs.take(i as int));
            }
            i = i + 1;
        }
        assert(downs.take(i as int) =~= downs);
        let mut j: usize = 0;
        while j < changes.went_up.len()
            invariant
                j <= changes.went_up@.len(),
                ups == releases(changes.went_up@),
                forall|n: int|
                    0 <= n < changes.went_up@.len() ==> changes.went_up@[n] < KEY_COUNT,
                self.previous == old(self).previous,
                self.mode == run_mode(start, downs + ups.take(j as int)),
                out@ == run_output(*tables, start, downs + ups.take(j as int)),
            decreases changes.went_up@.len() - j,
        {
            let key = changes.went_up[j];
            let mut part = key_released(key, &mut self.mode, tables);
            out.append(&mut part);
            proof {
                assert((downs + ups.take(j + 1)).drop_last() =~= downs + ups.take(j as int));
            }
            j = j + 1;
        }
        assert(ups.take(j as int) =~= ups);
        self.previous = current;
        out
    }
}

} // verus!
