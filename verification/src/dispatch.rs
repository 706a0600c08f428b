//! Turns key presses and releases into requests to the input sink, by the
//! table of the layer in force.

use vstd::prelude::*;
use crate::action::{key_downs, key_ups, push_stroke, strokes, Action, Emission};
use crate::layout::KEY_COUNT;
use crate::mode::{Layer, ModeState, LAYER_TOGGLE, TEXT_TOGGLE};
use crate::table::Tables;

verus! {

/// A change of one key between two scans.
#[derive(Clone, Copy, Debug, PartialEq, Eq, Structural)]
pub enum KeyEvent {
    /// The key went down.
    Pressed(u8),
    /// The key went up.
    Released(u8),
}

/// The requests for a press of a key bound to `action` in `layer`. A text
/// is typed. Key symbols are held down in a layer that holds its keys, and
/// struck one after the other elsewhere.
pub open spec fn press_emissions(action: Action, layer: Layer) -> Seq<Emission> {
    match action {
        Action::Empty => Seq::empty(),
        Action::Text(text) => seq![Emission::Text(text)],
        _ => if layer.holds() {
            key_downs(action.symbols())
        } else {
            strokes(action.symbols())
        },
    }
}

/// The requests for a release of a key bound to `action` in `layer`: its key
/// symbols are let go in a layer that holds its keys, and nothing is asked
/// elsewhere.
pub open spec fn release_emissions(action: Action, layer: Layer) -> Seq<Emission> {
    if layer.holds() {
        key_ups(action.symbols())
    } else {
        Seq::empty()
    }
}

/// The requests for a press of `key` in state `mode`: none for a key that
/// switches a layer in that state, else those of its binding in the layer in
/// force.
pub open spec fn press_output(tables: Tables, mode: ModeState, key: u8) -> Seq<Emission> {
    if mode.toggles(key) {
        Seq::empty()
    } else {
        press_emissions(tables.entries(mode.active())[key], mode.active())
    }
}

/// The requests for a release of `key` in state `mode`: none for a key that
/// switches a layer in that state, else those of its binding in the layer in
/// force at the release.
pub open spec fn release_output(tables: Tables, mode: ModeState, key: u8) -> Seq<Emission> {
    if mode.toggles(key) {
        Seq::empty()
    } else {
        release_emissions(tables.entries(mode.active())[key], mode.active())
    }
}

/// The requests for `event` in state `mode`.
pub open spec fn event_output(tables: Tables, mode: ModeState, event: KeyEvent) -> Seq<Emission> {
    match event {
        KeyEvent::Pressed(key) => press_output(tables, mode, key),
        KeyEvent::Released(key) => release_output(tables, mode, key),
    }
}

/// The state after `event` in state `mode`: only a release can switch a
/// layer.
pub open spec fn mode_after(mode: ModeState, event: KeyEvent) -> ModeState {
    match event {
        KeyEvent::Pressed(_) => mode,
        KeyEvent::Released(key) => mode.after_release(key),
    }
}

/// The state after all of `events`, taken in order from state `mode`.
pub open spec fn run_mode(mode: ModeState, events: Seq<KeyEvent>) -> ModeState
    decreases events.len(),
{
    if events.len() == 0 {
        mode
    } else {
        mode_after(run_mode(mode, events.drop_last()), events.last())
    }
}

/// The requests for all of `events`, taken in order from state `mode`.
pub open spec fn run_output(tables: Tables, mode: ModeState, events: Seq<KeyEvent>) -> Seq<
    Emission,
>
    decreases events.len(),
{
    if events.len() == 0 {
        Seq::empty()
    } else {
        run_output(tables, mode, events.drop_last()) + event_output(
            tables,
            run_mode(mode, events.drop_last()),
            events.last(),
        )
    }
}

/// Makes the requests for a press of a key bound to `action` in `layer`.
pub fn press_action(action: Action, layer: Layer) -> (out: Vec<Emission>)
    ensures
        out@ == press_emissions(action, layer),
{
    let mut out: Vec<Emission> = Vec::new();
    let held = layer.is_held();
    match action {
        Action::Empty => {},
        Action::Text(text) => {
            out.push(Emission::Text(text));
        },
        Action::Key(symbol) => {
            if held {
                out.push(Emission::KeyDown(symbol));
            } else {
                push_stroke(&mut out, symbol);
                assert(out@ =~= strokes(action.symbols())) by {
                    reveal_with_fuel(strokes, 2);
                }
            }
        },
        Action::Sequence(symbols) => {
            let mut i: usize = 0;
            while i < symbols.len()
                invariant
                    i <= symbols@.len(),
                    held ==> out@ == key_downs(symbols@.take(i as int)),
                    !held ==> out@ == strokes(symbols@.take(i as int)),
                decreases symbols@.len() - i,
            {
                let symbol = symbols[i];
                proof {
                    assert(symbols@.take(i + 1).drop_last() =~= symbols@.take(i as int));
                }
                if held {
                    out.push(Emission::KeyDown(symbol));
                } else {
                    push_stroke(&mut out, symbol);
                }
                i = i + 1;
            }
            assert(symbols@.take(i as int) =~= symbols@);
        },
    }
    out
}

/// Makes the requests for a release of a key bound to `action` in `layer`.
pub fn release_action(action: Action, layer: Layer) -> (out: Vec<Emission>)
    ensures
        out@ == release_emissions(action, layer),
{
    let mut out: Vec<Emission> = Vec::new();
    if !layer.is_held() {
        return out;
    }
    match action {
        Action::Empty => {},
        Action::Text(_) => {},
        Action::Key(symbol) => {
            out.push(Emission::KeyUp(symbol));
        },
        Action::Sequence(symbols) => {
            let mut i: usize = 0;
            while i < symbols.len()
                invariant
                    i <= symbols@.len(),
                    out@ == key_ups(symbols@.take(i as int)),
                decreases symbols@.len() - i,
            {
                out.push(Emission::KeyUp(symbols[i]));
                i = i + 1;
            }
        },
    }
    out
}

/// Handles a press of `key`: a key that switches a layer in state `mode` is
/// swallowed, any other key is looked up in the table of the layer in force
/// and its binding carried out. A press never changes the state.
pub fn key_pressed(key: u8, mode: &ModeState, tables: &Tables) -> (out: Vec<Emission>)
    requires
        key < KEY_COUNT,
    ensures
        out@ == press_output(*tables, *mode, key),
        mode.toggles(key) ==> out@.len() == 0,
{
    if mode.is_toggle(key) {
        return Vec::new();
    }
    let layer = mode.active_layer();
    press_action(tables.action(layer, key), layer)
}

/// Handles a release of `key`: a key that switches a layer in state `mode`
/// flips that layer and asks nothing of the sink; any other key leaves the
/// state as it is, and its binding in the layer in force is let go.
pub fn key_released(key: u8, mode: &mut ModeState, tables: &Tables) -> (out: Vec<Emission>)
    requires
        key < KEY_COUNT,
    ensures
        out@ == release_output(*tables, *old(mode), key),
        *final(mode) == old(mode).after_release(key),
        old(mode).toggles(key) ==> out@.len() == 0,
        !old(mode).toggles(key) ==> *final(mode) == *old(mode),
{
    if mode.is_toggle(key) {
        mode.release(key);
        return Vec::new();
    }
    let layer = mode.active_layer();
    release_action(tables.action(layer, key), layer)
}

/// Handles one key event: from the state and the event to the next state
/// and the requests to send.
pub fn dispatch(event: KeyEvent, mode: &mut ModeState, tables: &Tables) -> (out: Vec<Emission>)
    requires
        match event {
            KeyEvent::Pressed(key) => key < KEY_COUNT,
            KeyEvent::Released(key) => key < KEY_COUNT,
        },
    ensures
        out@ == event_output(*tables, *old(mode), event),
        *final(mode) == mode_after(*old(mode), event),
{
    match event {
        KeyEvent::Pressed(key) => key_pressed(key, mode, tables),
        KeyEvent::Released(key) => key_released(key, mode, tables),
    }
}

/// In a layer that holds its keys, a release lets go the very keys that a
/// press of the same binding holds down, in the same order. In the other
/// layers a release asks nothing.
pub proof fn lemma_release_matches_press(action: Action, layer: Layer)
    requires
        !(action is Text),
    ensures
        layer.holds() ==> press_emissions(action, layer).len() == release_emissions(
            action,
            layer,
        ).len(),
        layer.holds() ==> forall|i: int|
            0 <= i < action.symbols().len() ==> press_emissions(action, layer)[i]
                == Emission::KeyDown(#[trigger] action.symbols()[i]) && release_emissions(
                action,
                layer,
            )[i] == Emission::KeyUp(action.symbols()[i]),
        !layer.holds() ==> release_emissions(action, layer) == Seq::<Emission>::empty(),
{
}

/// Two releases of the layer toggle, with neither a release of it nor one of
/// the text toggle between them, leave the alternate layer as it was.
pub proof fn lemma_layer_toggle_round_trip(mode: ModeState, between: Seq<KeyEvent>)
    requires
        forall|i: int|
            0 <= i < between.len() ==> between[i] != KeyEvent::Released(LAYER_TOGGLE)
                && between[i] != KeyEvent::Released(TEXT_TOGGLE),
    ensures
        run_mode(
            mode,
            seq![KeyEvent::Released(LAYER_TOGGLE)] + between + seq![
                KeyEvent::Released(LAYER_TOGGLE),
            ],
        ).alt_layer == mode.alt_layer,
{
    let toggle = seq![KeyEvent::Released(LAYER_TOGGLE)];
    let once = run_mode(mode, toggle);
    assert(once == mode.after_release(LAYER_TOGGLE)) by {
        reveal_with_fuel(run_mode, 2);
        assert(toggle.drop_last() =~= Seq::<KeyEvent>::empty());
    }
    let later = run_mode(once, between);
    lemma_between_keeps_layers(once, between);
    assert(run_mode(later, toggle) == later.after_release(LAYER_TOGGLE)) by {
        reveal_with_fuel(run_mode, 2);
        assert(toggle.drop_last() =~= Seq::<KeyEvent>::empty());
    }
    assert(run_mode(mode, toggle + between) == later) by {
        lemma_mode_append(mode, toggle, between);
    }
    assert(run_mode(mode, toggle + between + toggle) == run_mode(later, toggle)) by {
        lemma_mode_append(mode, toggle + between, toggle);
    }
}

/// The state after a run of events is that after its first part, carried on
/// through the rest.
pub proof fn lemma_mode_append(mode: ModeState, first: Seq<KeyEvent>, rest: Seq<KeyEvent>)
    ensures
        run_mode(mode, first + rest) == run_mode(run_mode(mode, first), rest),
    decreases rest.len(),
{
    if rest.len() > 0 {
        lemma_mode_append(mode, first, rest.drop_last());
        assert((first + rest).drop_last() =~= first + rest.drop_last());
    }
}

/// Events other than releases of the layer toggle and of the text toggle
/// leave the alternate layer and the text layer as they were.
pub proof fn lemma_between_keeps_layers(mode: ModeState, events: Seq<KeyEvent>)
    requires
        forall|i: int|
            0 <= i < events.len() ==> events[i] != KeyEvent::Released(LAYER_TOGGLE)
                && events[i] != KeyEvent::Released(TEXT_TOGGLE),
    ensures
        run_mode(mode, events).alt_layer == mode.alt_layer,
        run_mode(mode, events).text_layer == mode.text_layer,
    decreases events.len(),
{
    if events.len() > 0 {
        lemma_between_keeps_layers(mode, events.drop_last());
    }
}

} // verus!
