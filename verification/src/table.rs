//! The action tables, one per layer, held as compile-time hash maps.

use vstd::prelude::*;
use crate::action::Action;
use crate::layout::KEY_COUNT;
use crate::mode::Layer;

verus! {

/// `phf::Map`, a hash map laid out at compile time. Nothing of its fields is
/// known here; what it binds is told apart by `table_entries` and
/// `table_len`.
#[verifier::external_type_specification]
#[verifier::external_body]
#[verifier::reject_recursive_types(K)]
#[verifier::reject_recursive_types(V)]
pub struct ExPhfMap<K: 'static, V: 'static>(phf::Map<K, V>);

/// What `phf::Map::get` finds in a table that has entries: the keys for
/// which it returns an action, each with that action.
pub uninterp spec fn table_entries(table: phf::Map<u8, Action>) -> Map<u8, Action>;

/// The number of entries that a table was made with.
pub uninterp spec fn table_len(table: phf::Map<u8, Action>) -> nat;

/// Counts the entries with `phf::Map::len`, which gives the length of the
/// map's entry slice.
#[verifier::external_body]
fn entry_count(table: &phf::Map<u8, Action>) -> (count: usize)
    ensures
        count == table_len(*table),
{
    table.len()
}

/// Looks `key` up with `phf::Map::get`, which hashes the key, picks an entry
/// by the hash and compares that entry's key with `key`. The contract says
/// that the call returns the action of the entry found, and `None` when the
/// entry picked has another key. It leaves out the map without entries, on
/// which the call may divide by zero.
#[verifier::external_body]
fn lookup(table: &phf::Map<u8, Action>, key: u8) -> (found: Option<Action>)
    requires
        table_len(*table) > 0,
    ensures
        found == (if table_entries(*table).contains_key(key) {
            Some(table_entries(*table)[key])
        } else {
            None
        }),
{
    table.get(&key).copied()
}

/// The bindings of a table: none where it has no entries, else what a
/// lookup finds.
pub open spec fn bindings(table: phf::Map<u8, Action>) -> Map<u8, Action> {
    if table_len(table) == 0 {
        Map::empty()
    } else {
        table_entries(table)
    }
}

/// Whether `entries` binds every key index.
pub open spec fn covers(entries: Map<u8, Action>) -> bool {
    forall|key: u8| key < KEY_COUNT ==> #[trigger] entries.contains_key(key)
}

/// Finds the smallest key index that `table` does not bind; `None` when it
/// binds them all.
pub fn first_gap(table: &phf::Map<u8, Action>) -> (gap: Option<u8>)
    ensures
        gap is None <==> covers(bindings(*table)),
        gap matches Some(key) ==> key < KEY_COUNT && !bindings(*table).contains_key(key)
            && forall|below: u8| below < key ==> #[trigger] bindings(*table).contains_key(below),
{
    if entry_count(table) == 0 {
        assert(!bindings(*table).contains_key(0));
        return Some(0);
    }
    let mut key: u8 = 0;
    while key < KEY_COUNT
        invariant
            key <= KEY_COUNT,
            table_len(*table) > 0,
            forall|below: u8| below < key ==> #[trigger] bindings(*table).contains_key(below),
        decreases KEY_COUNT - key,
    {
        if lookup(table, key).is_none() {
            return Some(key);
        }
        key = key + 1;
    }
    None
}

/// A key index that a table fails to bind.
#[derive(Clone, Copy, Debug, PartialEq, Eq, Structural)]
pub struct MissingEntry {
    /// The layer whose table has the gap.
    pub layer: Layer,
    /// The key index without a binding.
    pub key: u8,
}

/// The four action tables, each of which binds every key index.
pub struct Tables<'a> {
    main: &'a phf::Map<u8, Action>,
    alt: &'a phf::Map<u8, Action>,
    text: &'a phf::Map<u8, Action>,
    game: &'a phf::Map<u8, Action>,
}

impl<'a> Tables<'a> {
    /// The bindings of the table of `layer`.
    pub closed spec fn entries(self, layer: Layer) -> Map<u8, Action> {
        match layer {
            Layer::Main => bindings(*self.main),
            Layer::Alt => bindings(*self.alt),
            Layer::Text => bindings(*self.text),
            Layer::Game => bindings(*self.game),
        }
    }

    #[verifier::type_invariant]
    closed spec fn complete(self) -> bool {
        &&& covers(bindings(*self.main))
        &&& covers(bindings(*self.alt))
        &&& covers(bindings(*self.text))
        &&& covers(bindings(*self.game))
    }

    /// Takes the four tables, after checking that each binds every key
    /// index. The tables are checked in the order main, alternate, text,
    /// game, each from key index zero up, and the first gap found is the
    /// error.
    pub fn new(
        main: &'a phf::Map<u8, Action>,
        alt: &'a phf::Map<u8, Action>,
        text: &'a phf::Map<u8, Action>,
        game: &'a phf::Map<u8, Action>,
    ) -> (made: Result<Tables<'a>, MissingEntry>)
        ensures
            made is Ok <==> covers(bindings(*main)) && covers(bindings(*alt)) && covers(
                bindings(*text),
            ) && covers(bindings(*game)),
            made matches Ok(tables) ==> {
                &&& tables.entries(Layer::Main) == bindings(*main)
                &&& tables.entries(Layer::Alt) == bindings(*alt)
                &&& tables.entries(Layer::Text) == bindings(*text)
                &&& tables.entries(Layer::Game) == bindings(*game)
            },
            made matches Err(gap) ==> is_first_gap(
                gap,
                bindings(*main),
                bindings(*alt),
                bindings(*text),
                bindings(*game),
            ),
    {
        if let Some(key) = first_gap(main) {
            return Err(MissingEntry { layer: Layer::Main, key });
        }
        if let Some(key) = first_gap(alt) {
            return Err(MissingEntry { layer: Layer::Alt, key });
        }
        if let Some(key) = first_gap(text) {
            return Err(MissingEntry { layer: Layer::Text, key });
        }
        if let Some(key) = first_gap(game) {
            return Err(MissingEntry { layer: Layer::Game, key });
        }
        Ok(Tables { main, alt, text, game })
    }

    /// The action that the table of `layer` binds `key` to.
    pub fn action(&self, layer: Layer, key: u8) -> (action: Action)
        requires
            key < KEY_COUNT,
        ensures
            self.entries(layer).contains_key(key),
            action == self.entries(layer)[key],
    {
        proof {
            use_type_invariant(self);
        }
        let table = match layer {
            Layer::Main => self.main,
            Layer::Alt => self.alt,
            Layer::Text => self.text,
            Layer::Game => self.game,
        };
        match lookup(table, key) {
            Some(action) => action,
            None => Action::Empty,
        }
    }
}

/// Whether `gap` is the first key index without a binding, the tables taken
/// in the order main, alternate, text, game and each from key index zero up.
pub open spec fn is_first_gap(
    gap: MissingEntry,
    main: Map<u8, Action>,
    alt: Map<u8, Action>,
    text: Map<u8, Action>,
    game: Map<u8, Action>,
) -> bool {
    let entries = match gap.layer {
        Layer::Main => main,
        Layer::Alt => alt,
        Layer::Text => text,
        Layer::Game => game,
    };
    &&& gap.key < KEY_COUNT
    &&& !entries.contains_key(gap.key)
    &&& forall|below: u8| below < gap.key ==> #[trigger] entries.contains_key(below)
    &&& gap.layer != Layer::Main ==> covers(main)
    &&& gap.layer == Layer::Text || gap.layer == Layer::Game ==> covers(alt)
    &&& gap.layer == Layer::Game ==> covers(text)
}

} // verus!
