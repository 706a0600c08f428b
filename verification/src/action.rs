//! What a key can be bound to, and what the keypad hands to the input sink.

use vstd::prelude::*;

verus! {

/// Symbol of the left shift key.
pub const SHIFT_KEY: u16 = 42;

/// Symbol of the key that carries the digit six and, shifted, the caret.
pub const SIX_KEY: u16 = 7;

/// Symbol of the key that carries the digit nine and, shifted, the opening
/// parenthesis.
pub const NINE_KEY: u16 = 10;

/// Symbol of the key that carries the digit zero and, shifted, the closing
/// parenthesis.
pub const ZERO_KEY: u16 = 11;

/// Stands in a binding for the opening parenthesis, which no key carries
/// unshifted.
pub const LEFT_PAREN: u16 = 65535;

/// Stands in a binding for the closing parenthesis.
pub const RIGHT_PAREN: u16 = 65534;

/// Stands in a binding for the caret.
pub const CARET: u16 = 65533;

/// What an action table binds a key to.
#[derive(Clone, Copy, Debug, PartialEq, Eq)]
pub enum Action {
    /// Nothing happens.
    Empty,
    /// A literal text, handed to the sink as it is.
    Text(&'static str),
    /// One key symbol.
    Key(u16),
    /// Several key symbols, in the order in which they are struck.
    Sequence(&'static [u16]),
}

/// One request to the input sink.
#[derive(Clone, Copy, Debug, PartialEq, Eq)]
pub enum Emission {
    /// Type the literal text.
    Text(&'static str),
    /// Hold the key down.
    KeyDown(u16),
    /// Let the key go.
    KeyUp(u16),
    /// Press the key and let it go at once.
    Click(u16),
}

impl Action {
    /// The key symbols of the action, in order; none for a text or the empty
    /// action.
    pub open spec fn symbols(self) -> Seq<u16> {
        match self {
            Action::Empty => Seq::empty(),
            Action::Text(_) => Seq::empty(),
            Action::Key(symbol) => seq![symbol],
            Action::Sequence(symbols) => symbols@,
        }
    }
}

/// The key that, struck with shift held, yields the punctuation that
/// `symbol` stands for; `None` for a symbol that a key carries itself.
pub open spec fn shifted_base(symbol: u16) -> Option<u16> {
    if symbol == LEFT_PAREN {
        Some(NINE_KEY)
    } else if symbol == RIGHT_PAREN {
        Some(ZERO_KEY)
    } else if symbol == CARET {
        Some(SIX_KEY)
    } else {
        None
    }
}

/// The requests that strike `symbol` once: a click, wrapped in shift down and
/// shift up where the symbol stands for shifted punctuation.
pub open spec fn stroke(symbol: u16) -> Seq<Emission> {
    match shifted_base(symbol) {
        Some(base) => seq![
            Emission::KeyDown(SHIFT_KEY),
            Emission::Click(base),
            Emission::KeyUp(SHIFT_KEY),
        ],
        None => seq![Emission::Click(symbol)],
    }
}

/// The requests that strike each of `symbols` once, in order.
pub open spec fn strokes(symbols: Seq<u16>) -> Seq<Emission>
    decreases symbols.len(),
{
    if symbols.len() == 0 {
        Seq::empty()
    } else {
        strokes(symbols.drop_last()) + stroke(symbols.last())
    }
}

/// A key-down request for each of `symbols`, in order.
pub open spec fn key_downs(symbols: Seq<u16>) -> Seq<Emission> {
    Seq::new(symbols.len(), |i: int| Emission::KeyDown(symbols[i]))
}

/// A key-up request for each of `symbols`, in order.
pub open spec fn key_ups(symbols: Seq<u16>) -> Seq<Emission> {
    Seq::new(symbols.len(), |i: int| Emission::KeyUp(symbols[i]))
}

/// Appends to `out` the requests that strike `symbol` once.
pub fn push_stroke(out: &mut Vec<Emission>, symbol: u16)
    ensures
        final(out)@ == old(out)@ + stroke(symbol),
{
    if symbol == LEFT_PAREN {
        out.push(Emission::KeyDown(SHIFT_KEY));
        out.push(Emission::Click(NINE_KEY));
        out.push(Emission::KeyUp(SHIFT_KEY));
    } else if symbol == RIGHT_PAREN {
        out.push(Emission::KeyDown(SHIFT_KEY));
        out.push(Emission::Click(ZERO_KEY));
        out.push(Emission::KeyUp(SHIFT_KEY));
    } else if symbol == CARET {
        out.push(Emission::KeyDown(SHIFT_KEY));
        out.push(Emission::Click(SIX_KEY));
        out.push(Emission::KeyUp(SHIFT_KEY));
    } else {
        out.push(Emission::Click(symbol));
    }
}

} // verus!
