//! The layers of the keypad and the keys that switch between them.

use vstd::prelude::*;

verus! {

/// The key that switches the alternate layer, unless the text layer is on.
pub const LAYER_TOGGLE: u8 = 0;

/// The key that switches the text layer.
pub const TEXT_TOGGLE: u8 = 5;

/// The key that switches the game layer while the text layer is on.
pub const GAME_TOGGLE: u8 = 21;

/// One of the four action tables.
#[derive(Clone, Copy, Debug, PartialEq, Eq, Structural)]
pub enum Layer {
    /// The table in force when no layer is switched on.
    Main,
    /// The alternate table of the main layer.
    Alt,
    /// The table that turns the keypad into a keyboard.
    Text,
    /// The table for games.
    Game,
}

impl Layer {
    /// Whether a key of this layer stays down until it is released. In the
    /// other layers a press strikes its keys at once and a release does
    /// nothing.
    pub open spec fn holds(self) -> bool {
        self == Layer::Text || self == Layer::Game
    }

    /// Tells whether a key of this layer stays down until it is released.
    pub fn is_held(self) -> (held: bool)
        ensures
            held == self.holds(),
    {
        match self {
            Layer::Text | Layer::Game => true,
            Layer::Main | Layer::Alt => false,
        }
    }
}

/// Which layers are switched on.
#[derive(Clone, Copy, Debug, PartialEq, Eq, Structural)]
pub struct ModeState {
    /// The alternate layer is on.
    pub alt_layer: bool,
    /// The text layer is on.
    pub text_layer: bool,
    /// The game layer is on.
    pub game_layer: bool,
}

impl ModeState {
    /// Whether `layer` is the one whose table is in force: the game layer
    /// goes before the text layer, that before the alternate layer, and the
    /// main layer is in force when none is on.
    pub open spec fn governs(self, layer: Layer) -> bool {
        match layer {
            Layer::Game => self.game_layer,
            Layer::Text => self.text_layer && !self.game_layer,
            Layer::Alt => self.alt_layer && !self.text_layer && !self.game_layer,
            Layer::Main => !self.alt_layer && !self.text_layer && !self.game_layer,
        }
    }

    /// The layer whose table is in force.
    pub open spec fn active(self) -> Layer {
        if self.game_layer {
            Layer::Game
        } else if self.text_layer {
            Layer::Text
        } else if self.alt_layer {
            Layer::Alt
        } else {
            Layer::Main
        }
    }

    /// Whether `key` switches a layer in this state, and so is kept from the
    /// tables.
    pub open spec fn toggles(self, key: u8) -> bool {
        key == TEXT_TOGGLE || (key == LAYER_TOGGLE && !self.text_layer) || (key == GAME_TOGGLE
            && self.text_layer)
    }

    /// The state after `key` was released in this one.
    pub open spec fn after_release(self, key: u8) -> ModeState {
        if key == LAYER_TOGGLE && !self.text_layer {
            ModeState { alt_layer: !self.alt_layer, ..self }
        } else if key == GAME_TOGGLE && self.text_layer {
            ModeState { game_layer: !self.game_layer, ..self }
        } else if key == TEXT_TOGGLE {
            ModeState { text_layer: !self.text_layer, ..self }
        } else {
            self
        }
    }

    /// The state at start: no layer is on.
    pub fn new() -> (mode: ModeState)
        ensures
            mode == (ModeState { alt_layer: false, text_layer: false, game_layer: false }),
            mode.active() == Layer::Main,
    {
        ModeState { alt_layer: false, text_layer: false, game_layer: false }
    }

    /// Finds the layer whose table is in force.
    pub fn active_layer(&self) -> (layer: Layer)
        ensures
            layer == self.active(),
            self.governs(layer),
    {
        if self.game_layer {
            Layer::Game
        } else if self.text_layer {
            Layer::Text
        } else if self.alt_layer {
            Layer::Alt
        } else {
            Layer::Main
        }
    }

    /// Tells whether `key` switches a layer in this state.
    pub fn is_toggle(&self, key: u8) -> (toggle: bool)
        ensures
            toggle == self.toggles(key),
    {
        key == TEXT_TOGGLE || (key == LAYER_TOGGLE && !self.text_layer) || (key == GAME_TOGGLE
            && self.text_layer)
    }

    /// Takes note that `key` was released: a key that switches a layer in
    /// this state flips that layer, any other key changes nothing.
    pub fn release(&mut self, key: u8)
        ensures
            *final(self) == old(self).after_release(key),
            !old(self).toggles(key) ==> *final(self) == *old(self),
    {
        if key == LAYER_TOGGLE && !self.text_layer {
            self.alt_layer = !self.alt_layer;
        } else if key == GAME_TOGGLE && self.text_layer {
            self.game_layer = !self.game_layer;
        } else if key == TEXT_TOGGLE {
            self.text_layer = !self.text_layer;
        }
    }
}

/// In every state exactly one layer is in force, the one that `active` names.
pub proof fn lemma_one_layer_governs(mode: ModeState)
    ensures
        mode.governs(mode.active()),
        forall|layer: Layer| mode.governs(layer) ==> layer == mode.active(),
{
}

} // verus!
