//! The set of keys that one scan of the matrix found closed.

use vstd::prelude::*;
use crate::layout::KEY_COUNT;

verus! {

/// Whether bit `position` of `bits` is set.
pub open spec fn has_bit(bits: u64, position: u64) -> bool {
    (bits >> position) & 1 == 1
}

/// The members of `set` below `bound`, in ascending order.
pub open spec fn keys_below(set: Set<u8>, bound: nat) -> Seq<u8>
    decreases bound,
{
    if bound == 0 {
        Seq::empty()
    } else {
        let key = (bound - 1) as u8;
        let rest = keys_below(set, (bound - 1) as nat);
        if set.contains(key) {
            rest.push(key)
        } else {
            rest
        }
    }
}

/// The key indices in `set`, in ascending order.
pub open spec fn listing(set: Set<u8>) -> Seq<u8> {
    keys_below(set, KEY_COUNT as nat)
}

/// `keys_below(set, bound)` holds exactly the members of `set` below `bound`,
/// each once, smaller keys first.
pub proof fn lemma_keys_below(set: Set<u8>, bound: nat)
    requires
        bound <= 256,
    ensures
        forall|key: u8| #[trigger]
            keys_below(set, bound).contains(key) <==> set.contains(key) && key < bound,
        forall|i: int, j: int|
            0 <= i < j < keys_below(set, bound).len() ==> #[trigger] keys_below(set, bound)[i]
                < #[trigger] keys_below(set, bound)[j],
        forall|i: int|
            0 <= i < keys_below(set, bound).len() ==> #[trigger] keys_below(set, bound)[i] < bound,
        keys_below(set, bound).len() <= bound,
    decreases bound,
{
    if bound > 0 {
        let key = (bound - 1) as u8;
        let rest = keys_below(set, (bound - 1) as nat);
        lemma_keys_below(set, (bound - 1) as nat);
        let all = keys_below(set, bound);
        assert forall|k: u8| #[trigger] all.contains(k) <==> set.contains(k) && k < bound by {
            if set.contains(key) {
                if all.contains(k) {
                    let i = choose|i: int| 0 <= i < all.len() && all[i] == k;
                    if i < rest.len() {
                        assert(rest.contains(k));
                    }
                }
                if set.contains(k) && k < bound {
                    if k == key {
                        assert(all[rest.len() as int] == k);
                    } else {
                        assert(rest.contains(k));
                        let i = choose|i: int| 0 <= i < rest.len() && rest[i] == k;
                        assert(all[i] == k);
                    }
                }
            }
        }
    }
}

/// The listing of a set holds exactly its members that are key indices,
/// each once, in ascending order.
pub proof fn lemma_listing(set: Set<u8>)
    ensures
        forall|key: u8| #[trigger]
            listing(set).contains(key) <==> set.contains(key) && key < KEY_COUNT,
        forall|i: int, j: int|
            0 <= i < j < listing(set).len() ==> #[trigger] listing(set)[i]
                < #[trigger] listing(set)[j],
        forall|i: int| 0 <= i < listing(set).len() ==> #[trigger] listing(set)[i] < KEY_COUNT,
        listing(set).len() <= KEY_COUNT,
{
    lemma_keys_below(set, KEY_COUNT as nat);
}

/// A set with no member below `bound` lists as the empty sequence.
pub proof fn lemma_keys_below_none(set: Set<u8>, bound: nat)
    requires
        bound <= 256,
        forall|key: u8| key < bound ==> !set.contains(key),
    ensures
        keys_below(set, bound) == Seq::<u8>::empty(),
    decreases bound,
{
    if bound > 0 {
        lemma_keys_below_none(set, (bound - 1) as nat);
    }
}

/// A set of key indices, one bit per key.
#[derive(Clone, Copy, Debug, PartialEq, Eq)]
pub struct KeySet {
    bits: u64,
}

impl View for KeySet {
    type V = Set<u8>;

    /// The key indices that are members.
    closed spec fn view(&self) -> Set<u8> {
        Set::new(|key: u8| key < KEY_COUNT && has_bit(self.bits, key as u64))
    }
}

impl KeySet {
    /// Every member is a key index.
    pub proof fn lemma_in_range(self)
        ensures
            forall|key: u8| self@.contains(key) ==> key < KEY_COUNT,
    {
    }

    /// The set with no key in it.
    pub fn new() -> (set: KeySet)
        ensures
            set@ == Set::<u8>::empty(),
    {
        let set = KeySet { bits: 0 };
        proof {
            assert forall|key: u8| !set@.contains(key) by {
                let position = key as u64;
                assert(!has_bit(0u64, position)) by (bit_vector);
            }
        }
        set
    }

    /// Whether `key` is a member.
    pub fn contains(&self, key: u8) -> (found: bool)
        ensures
            found == self@.contains(key),
    {
        key < KEY_COUNT && (self.bits >> (key as u64)) & 1 == 1
    }

    /// Adds `key` to the set.
    pub fn insert(&mut self, key: u8)
        requires
            key < KEY_COUNT,
        ensures
            final(self)@ == old(self)@.insert(key),
    {
        let before = self.bits;
        let after = before | (1u64 << (key as u64));
        self.bits = after;
        proof {
            let added = key as u64;
            assert forall|other: u8| self@.contains(other) == old(self)@.insert(key).contains(other) by {
                let position = other as u64;
                assert(position < 64 && added < 64 ==> (has_bit(before | (1u64 << added), position)
                    <==> position == added || has_bit(before, position))) by (bit_vector);
            }
        }
    }

    /// Removes every key from the set.
    pub fn clear(&mut self)
        ensures
            final(self)@ == Set::<u8>::empty(),
    {
        *self = KeySet::new();
    }

    /// The members of this set that are not members of `other`.
    pub fn difference(&self, other: &KeySet) -> (rest: KeySet)
        ensures
            rest@ == self@.difference(other@),
    {
        let rest = KeySet { bits: self.bits & !other.bits };
        proof {
            let a = self.bits;
            let b = other.bits;
            assert forall|key: u8| rest@.contains(key) == self@.difference(other@).contains(key) by {
                let position = key as u64;
                assert(position < 64 ==> (has_bit(a & !b, position) <==> has_bit(a, position)
                    && !has_bit(b, position))) by (bit_vector);
            }
        }
        rest
    }

    /// The members in ascending order.
    pub fn keys(&self) -> (keys: Vec<u8>)
        ensures
            keys@ == listing(self@),
    {
        let mut keys: Vec<u8> = Vec::new();
        let mut key: u8 = 0;
        while key < KEY_COUNT
            invariant
                key <= KEY_COUNT,
                keys@ == keys_below(self@, key as nat),
            decreases KEY_COUNT - key,
        {
            if self.contains(key) {
                keys.push(key);
            }
            key = key + 1;
        }
        keys
    }
}

} // verus!
