//! One packed board cell for the incremental backend: a single byte that
//! holds the alive bit and a four-bit count of live neighbors.

use vstd::prelude::*;

verus! {

/// Packed cell byte: bit 4 is the alive bit, bits 0-3 count the live
/// neighbors.  Bits 5-7 are never set.
#[derive(Clone, Copy, Debug)]
pub struct LifeCell {
    data: u8,
}

impl LifeCell {
    /// Only the alive bit and the count nibble are ever in use.
    pub closed spec fn wf(self) -> bool {
        self.data < 32
    }

    /// The alive bit.
    pub closed spec fn spec_is_live(self) -> bool {
        self.data & 0x10 != 0
    }

    /// The neighbor-count nibble.
    pub closed spec fn spec_count(self) -> int {
        (self.data & 0x0f) as int
    }

    pub fn is_live(&self) -> (r: bool)
        ensures
            r == self.spec_is_live(),
    {
        self.data & 0x10 != 0
    }

    pub fn neighbors_count(&self) -> (n: u8)
        ensures
            n as int == self.spec_count(),
            n <= 15,
    {
        proof {
            let d = self.data;
            assert(d & 0x0f <= 15) by (bit_vector);
        }
        self.data & 0x0f
    }

    /// A dead cell with no live neighbors.
    pub fn create_dead() -> (c: LifeCell)
        ensures
            c.wf(),
            !c.spec_is_live(),
            c.spec_count() == 0,
    {
        proof {
            assert(0u8 & 0x10 == 0 && 0u8 & 0x0f == 0) by (bit_vector);
        }
        LifeCell { data: 0 }
    }

    /// Indicates if this cell and all the neighboring cells are dead.
    pub fn is_deadzone(&self) -> (r: bool)
        requires
            self.wf(),
        ensures
            r == (!self.spec_is_live() && self.spec_count() == 0),
    {
        proof {
            let d = self.data;
            assert(d < 32 ==> ((d == 0) <==> (d & 0x10 == 0 && d & 0x0f == 0))) by (bit_vector);
        }
        self.data == 0
    }

    pub fn set_alive(&mut self)
        requires
            old(self).wf(),
        ensures
            final(self).wf(),
            final(self).spec_is_live(),
            final(self).spec_count() == old(self).spec_count(),
    {
        proof {
            let d = self.data;
            assert(d < 32 ==> (d | 0x10) < 32 && ((d | 0x10) & 0x10 != 0) && ((d | 0x10) & 0x0f)
                == (d & 0x0f)) by (bit_vector);
        }
        self.data = self.data | 0x10;
    }

    pub fn set_dead(&mut self)
        requires
            old(self).wf(),
        ensures
            final(self).wf(),
            !final(self).spec_is_live(),
            final(self).spec_count() == old(self).spec_count(),
    {
        proof {
            let d = self.data;
            assert(d < 32 ==> (d & 0xef) < 32 && ((d & 0xef) & 0x10 == 0) && ((d & 0xef) & 0x0f)
                == (d & 0x0f)) by (bit_vector);
        }
        self.data = self.data & 0xef;
    }

    /// Record one more live neighbor.
    pub fn increment_neighbors(&mut self)
        requires
            old(self).wf(),
            old(self).spec_count() < 15,
        ensures
            final(self).wf(),
            final(self).spec_is_live() == old(self).spec_is_live(),
            final(self).spec_count() == old(self).spec_count() + 1,
    {
        let next = self.data + 1;
        proof {
            let d = self.data;
            assert(next < 32 && (next & 0x0f) == (d & 0x0f) + 1 && (next & 0x10) == (d
                & 0x10)) by (bit_vector)
                requires
                    next == d + 1,
                    d < 32,
                    (d & 0x0f) < 15,
            ;
        }
        self.data = next;
    }

    /// Record one less live neighbor.
    pub fn decrement_neighbors(&mut self)
        requires
            old(self).wf(),
            old(self).spec_count() >= 1,
        ensures
            final(self).wf(),
            final(self).spec_is_live() == old(self).spec_is_live(),
            final(self).spec_count() == old(self).spec_count() - 1,
    {
        proof {
            let d = self.data;
            assert(d >= 1) by (bit_vector)
                requires
                    d < 32,
                    (d & 0x0f) >= 1,
            ;
        }
        let next = self.data - 1;
        proof {
            let d = self.data;
            assert(next < 32 && (next & 0x0f) == (d & 0x0f) - 1 && (next & 0x10) == (d
                & 0x10)) by (bit_vector)
                requires
                    next == d - 1,
                    d < 32,
                    (d & 0x0f) >= 1,
            ;
        }
        self.data = next;
    }
}

impl Default for LifeCell {
    /// A fresh cell is dead with no live neighbors.
    fn default() -> (c: LifeCell)
        ensures
            c.wf(),
            !c.spec_is_live(),
            c.spec_count() == 0,
    {
        LifeCell::create_dead()
    }
}

} // verus!
