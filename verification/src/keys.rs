//! The physical keys of the instrument and sets of them.
//!
//! A `Key` is one of the 24 named keys or levers; a `KeySet` is a bitset
//! over those keys, one bit per key, and is the representation of a
//! fingering: which keys are pressed at once.

use vstd::prelude::*;

verus! {

/// Number of named physical keys.
pub const NUM_KEYS: usize = 24;

/// One physical key or lever of the instrument.
#[derive(Clone, Copy, PartialEq, Eq, Structural, Debug)]
pub enum Key {
    Octave,
    Left1,
    Left2,
    Left3,
    FrontF,
    Bis,
    PalmD,
    PalmEflat,
    PalmF,
    Gsharp,
    LowCsharp,
    LowB,
    LowBflat,
    Right1,
    Right2,
    Right3,
    Fsharp,
    SideE,
    SideC,
    SideBis,
    HighFsharp,
    LowEflat,
    LowC,
    LowA,
}

/// The bit position that stands for a key.
pub open spec fn key_index(k: Key) -> int {
    match k {
        Key::Octave => 0,
        Key::Left1 => 1,
        Key::Left2 => 2,
        Key::Left3 => 3,
        Key::FrontF => 4,
        Key::Bis => 5,
        Key::PalmD => 6,
        Key::PalmEflat => 7,
        Key::PalmF => 8,
        Key::Gsharp => 9,
        Key::LowCsharp => 10,
        Key::LowB => 11,
        Key::LowBflat => 12,
        Key::Right1 => 13,
        Key::Right2 => 14,
        Key::Right3 => 15,
        Key::Fsharp => 16,
        Key::SideE => 17,
        Key::SideC => 18,
        Key::SideBis => 19,
        Key::HighFsharp => 20,
        Key::LowEflat => 21,
        Key::LowC => 22,
        Key::LowA => 23,
    }
}

/// The key that stands at a bit position; positions outside the key
/// universe are mapped onto the last key.
pub open spec fn key_of(i: int) -> Key {
    if i == 0 {
        Key::Octave
    } else if i == 1 {
        Key::Left1
    } else if i == 2 {
        Key::Left2
    } else if i == 3 {
        Key::Left3
    } else if i == 4 {
        Key::FrontF
    } else if i == 5 {
        Key::Bis
    } else if i == 6 {
        Key::PalmD
    } else if i == 7 {
        Key::PalmEflat
    } else if i == 8 {
        Key::PalmF
    } else if i == 9 {
        Key::Gsharp
    } else if i == 10 {
        Key::LowCsharp
    } else if i == 11 {
        Key::LowB
    } else if i == 12 {
        Key::LowBflat
    } else if i == 13 {
        Key::Right1
    } else if i == 14 {
        Key::Right2
    } else if i == 15 {
        Key::Right3
    } else if i == 16 {
        Key::Fsharp
    } else if i == 17 {
        Key::SideE
    } else if i == 18 {
        Key::SideC
    } else if i == 19 {
        Key::SideBis
    } else if i == 20 {
        Key::HighFsharp
    } else if i == 21 {
        Key::LowEflat
    } else if i == 22 {
        Key::LowC
    } else {
        Key::LowA
    }
}

impl Key {
    /// The bit position of this key, as an executable value.
    pub fn index(&self) -> (i: usize)
        ensures
            i == key_index(*self),
            i < NUM_KEYS,
    {
        match *self {
            Key::Octave => 0,
            Key::Left1 => 1,
            Key::Left2 => 2,
            Key::Left3 => 3,
            Key::FrontF => 4,
            Key::Bis => 5,
            Key::PalmD => 6,
            Key::PalmEflat => 7,
            Key::PalmF => 8,
            Key::Gsharp => 9,
            Key::LowCsharp => 10,
            Key::LowB => 11,
            Key::LowBflat => 12,
            Key::Right1 => 13,
            Key::Right2 => 14,
            Key::Right3 => 15,
            Key::Fsharp => 16,
            Key::SideE => 17,
            Key::SideC => 18,
            Key::SideBis => 19,
            Key::HighFsharp => 20,
            Key::LowEflat => 21,
            Key::LowC => 22,
            Key::LowA => 23,
        }
    }

    /// The key at a bit position.
    pub fn from_index(i: usize) -> (k: Key)
        requires
            i < NUM_KEYS,
        ensures
            k == key_of(i as int),
            key_index(k) == i,
    {
        match i {
            0 => Key::Octave,
            1 => Key::Left1,
            2 => Key::Left2,
            3 => Key::Left3,
            4 => Key::FrontF,
            5 => Key::Bis,
            6 => Key::PalmD,
            7 => Key::PalmEflat,
            8 => Key::PalmF,
            9 => Key::Gsharp,
            10 => Key::LowCsharp,
            11 => Key::LowB,
            12 => Key::LowBflat,
            13 => Key::Right1,
            14 => Key::Right2,
            15 => Key::Right3,
            16 => Key::Fsharp,
            17 => Key::SideE,
            18 => Key::SideC,
            19 => Key::SideBis,
            20 => Key::HighFsharp,
            21 => Key::LowEflat,
            22 => Key::LowC,
            _ => Key::LowA,
        }
    }
}

/// How many of the low `n` bit positions of `bits` are set.
pub open spec fn pop_below(bits: u32, n: nat) -> nat
    decreases n,
{
    if n == 0 {
        0
    } else {
        pop_below(bits, (n - 1) as nat) + (if bits & (1u32 << ((n - 1) as u32)) != 0 {
            1nat
        } else {
            0nat
        })
    }
}

/// How many bits of `bits` are set: the population count.
pub open spec fn popcount(bits: u32) -> nat {
    pop_below(bits, 32)
}

proof fn lemma_pop_below_le(bits: u32, n: nat)
    ensures
        pop_below(bits, n) <= n,
    decreases n,
{
    if n > 0 {
        lemma_pop_below_le(bits, (n - 1) as nat);
    }
}

/// No more than 32 bits can be set in a 32-bit mask.
pub proof fn lemma_popcount_le(bits: u32)
    ensures
        popcount(bits) <= 32,
{
    lemma_pop_below_le(bits, 32);
}

/// A set of physical keys: one fingering's pressed keys.
///
/// Stored as a 32-bit mask with one bit per `Key`; the view of a
/// `KeySet` is that mask.
#[derive(Clone, Copy, PartialEq, Eq, Structural, Debug)]
pub struct KeySet {
    bits: u32,
}

impl View for KeySet {
    type V = u32;

    closed spec fn view(&self) -> u32 {
        self.bits
    }
}

/// Whether the bit of key `k` is set in `bits`.
pub open spec fn mask_contains(bits: u32, k: Key) -> bool {
    bits & (1u32 << (key_index(k) as u32)) != 0
}

impl KeySet {
    /// The set with no keys pressed.
    pub fn empty() -> (r: KeySet)
        ensures
            r@ == 0u32,
    {
        KeySet { bits: 0 }
    }

    /// The set holding exactly the keys whose bits are set in `bits`.
    pub fn from_bits(bits: u32) -> (r: KeySet)
        ensures
            r@ == bits,
    {
        KeySet { bits }
    }

    /// The raw bit mask.
    pub fn bits(&self) -> (r: u32)
        ensures
            r == self@,
    {
        self.bits
    }

    /// This set with key `k` added.
    pub fn insert(&self, k: Key) -> (r: KeySet)
        ensures
            r@ == (self@ | (1u32 << (key_index(k) as u32))),
    {
        let i = k.index();
        KeySet { bits: self.bits | (1u32 << (i as u32)) }
    }

    /// Whether key `k` is in this set.
    pub fn contains(&self, k: Key) -> (r: bool)
        ensures
            r == mask_contains(self@, k),
    {
        let i = k.index();
        self.bits & (1u32 << (i as u32)) != 0
    }

    /// The keys in either set.
    pub fn union(&self, other: &KeySet) -> (r: KeySet)
        ensures
            r@ == (self@ | other@),
    {
        KeySet { bits: self.bits | other.bits }
    }

    /// The keys in both sets.
    pub fn intersection(&self, other: &KeySet) -> (r: KeySet)
        ensures
            r@ == (self@ & other@),
    {
        KeySet { bits: self.bits & other.bits }
    }

    /// The keys in exactly one of the two sets.
    pub fn symmetrical_difference(&self, other: &KeySet) -> (r: KeySet)
        ensures
            r@ == (self@ ^ other@),
    {
        KeySet { bits: self.bits ^ other.bits }
    }

    /// Whether the two sets share no key.
    pub fn is_disjoint(&self, other: &KeySet) -> (r: bool)
        ensures
            r == ((self@ & other@) == 0u32),
    {
        self.bits & other.bits == 0
    }

    /// How many keys the set holds.
    pub fn len(&self) -> (r: u32)
        ensures
            r == popcount(self@),
    {
        let bits = self.bits;
        let mut count: u32 = 0;
        let mut i: u32 = 0;
        while i < 32
            invariant
                i <= 32,
                count == pop_below(bits, i as nat),
                count <= i,
            decreases 32 - i,
        {
            let bit = (bits >> i) & 1;
            assert(bit == (if bits & (1u32 << i) != 0 {
                1u32
            } else {
                0u32
            })) by (bit_vector)
                requires
                    i < 32,
                    bit == (bits >> i) & 1,
            ;
            if bit == 1 {
                count = count + 1;
            }
            i = i + 1;
        }
        count
    }
}

} // verus!
