//! The three states of a slot of the table.

use vstd::prelude::*;

verus! {

/// One slot of the table.
pub enum Entry<Key, Val> {
    /// Nothing was stored here since the slot array was allocated.
    Vacant,
    /// A pair was stored here and has been removed. A probe walks past it.
    Tombstone,
    /// A live pair.
    Occupied { key: Key, val: Val },
}

impl<Key, Val> Entry<Key, Val> {
    /// Moves the value out of an occupied slot and leaves a tombstone.
    /// Any other slot is left as it is.
    pub fn take(&mut self) -> (taken: Option<Val>)
        ensures
            match *old(self) {
                Entry::Occupied { key, val } => taken == Some(val) && *final(self)
                    == Entry::<Key, Val>::Tombstone,
                _ => taken is None && *final(self) == *old(self),
            },
    {
        match self {
            Entry::Occupied { .. } => {
                let mut occupied = Entry::Tombstone;
                std::mem::swap(self, &mut occupied);
                match occupied {
                    Entry::Occupied { key: _, val } => Some(val),
                    _ => vstd::pervasive::unreached(),
                }
            },
            _ => None,
        }
    }

    /// Puts `x` in place of the value of an occupied slot and returns the
    /// value that was there. Any other slot is left as it is.
    pub fn replace(&mut self, x: Val) -> (previous: Option<Val>)
        ensures
            match *old(self) {
                Entry::Occupied { key, val } => previous == Some(val) && *final(self)
                    == (Entry::Occupied { key, val: x }),
                _ => previous is None && *final(self) == *old(self),
            },
    {
        let mut x = x;
        match self {
            Entry::Occupied { val, .. } => {
                std::mem::swap(&mut x, val);
                Some(x)
            },
            _ => None,
        }
    }
}

} // verus!
