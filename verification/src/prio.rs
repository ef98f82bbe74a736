//! Priority bitmap for O(1) highest-ready lookup.
//!
//! Each bit represents one priority level. A set bit means there is at
//! least one ready task at that priority. Bit significance is arranged
//! so that the numerically smallest priority with a ready task lies in
//! the most-significant set bit of the lowest non-zero word, which a
//! count-leading-zeros step finds in constant time.

use vstd::prelude::*;

use crate::config::CFG_PRIO_MAX;
use crate::types::OsPrio;

verus! {

/// Number of words needed for the priority bitmap
pub const PRIO_TBL_SIZE: usize = (CFG_PRIO_MAX + 31) / 32;

/// Priority bitmap table
///
/// Viewed abstractly (`table@`) as the set of priorities whose bit is set.
pub struct PrioTable {
    bitmap: Vec<u32>,
}

/// Mask selecting the bit that stores priority `p` within its word
pub closed spec fn prio_mask(p: int) -> u32 {
    0x8000_0000u32 >> ((p % 32) as u32)
}

impl View for PrioTable {
    type V = Set<int>;

    open spec fn view(&self) -> Set<int> {
        Set::new(|p: int| self.spec_is_set(p))
    }
}

// A bit is in a word iff the corresponding single-bit test passes.
proof fn lemma_mask_bit(w: u32, b: u32)
    requires
        b < 32,
    ensures
        (w & (0x8000_0000u32 >> b) != 0) <==> ((w >> ((31 - b) as u32)) & 1u32 != 0),
{
    assert(b < 32 ==> ((w & (0x8000_0000u32 >> b) != 0) <==> ((w >> ((31 - b) as u32)) & 1u32
        != 0))) by (bit_vector);
}

// Setting one bit affects exactly that bit.
proof fn lemma_or_mask(w: u32, b: u32, b2: u32)
    requires
        b < 32,
        b2 < 32,
    ensures
        ((w | (0x8000_0000u32 >> b)) & (0x8000_0000u32 >> b2) != 0) <==> (b2 == b || (w & (
        0x8000_0000u32 >> b2) != 0)),
{
    assert((b < 32 && b2 < 32) ==> (((w | (0x8000_0000u32 >> b)) & (0x8000_0000u32 >> b2) != 0)
        <==> (b2 == b || (w & (0x8000_0000u32 >> b2) != 0)))) by (bit_vector);
}

// Clearing one bit affects exactly that bit.
proof fn lemma_andnot_mask(w: u32, b: u32, b2: u32)
    requires
        b < 32,
        b2 < 32,
    ensures
        ((w & !(0x8000_0000u32 >> b)) & (0x8000_0000u32 >> b2) != 0) <==> (b2 != b && (w & (
        0x8000_0000u32 >> b2) != 0)),
{
    assert((b < 32 && b2 < 32) ==> (((w & !(0x8000_0000u32 >> b)) & (0x8000_0000u32 >> b2) != 0)
        <==> (b2 != b && (w & (0x8000_0000u32 >> b2) != 0)))) by (bit_vector);
}

// The shift-left form used by the executable code equals the mask form.
proof fn lemma_shl_is_mask(b: u32)
    requires
        b < 32,
    ensures
        (1u32 << ((31 - b) as u32)) == (0x8000_0000u32 >> b),
{
    assert(b < 32 ==> (1u32 << ((31 - b) as u32)) == (0x8000_0000u32 >> b)) by (bit_vector);
}

proof fn lemma_zero_word_mask(b: u32)
    ensures
        0u32 & (0x8000_0000u32 >> b) == 0,
{
    assert(0u32 & (0x8000_0000u32 >> b) == 0) by (bit_vector);
}

// A priority is determined by its word index and bit offset.
proof fn lemma_prio_split(p: int, q: int)
    requires
        0 <= p < CFG_PRIO_MAX,
        0 <= q < CFG_PRIO_MAX,
        p / 32 == q / 32,
        p % 32 == q % 32,
    ensures
        p == q,
{
    vstd::arithmetic::div_mod::lemma_fundamental_div_mod(p, 32);
    vstd::arithmetic::div_mod::lemma_fundamental_div_mod(q, 32);
}

impl PrioTable {
    /// Well-formed: the bitmap covers all priority levels
    pub closed spec fn wf(self) -> bool {
        self.bitmap@.len() == PRIO_TBL_SIZE
    }

    /// The bit for priority `p` is set
    pub closed spec fn spec_is_set(self, p: int) -> bool {
        0 <= p < CFG_PRIO_MAX && self.bitmap@[p / 32] & prio_mask(p) != 0
    }

    /// The priority the table reports as highest: the numerically
    /// smallest set priority, or `CFG_PRIO_MAX - 1` when none is set.
    pub closed spec fn spec_highest(self) -> int {
        self.spec_highest_from(0)
    }

    pub closed spec fn spec_highest_from(self, p: int) -> int
        decreases CFG_PRIO_MAX - p,
    {
        if p < 0 || p >= CFG_PRIO_MAX - 1 {
            CFG_PRIO_MAX - 1
        } else if self.spec_is_set(p) {
            p
        } else {
            self.spec_highest_from(p + 1)
        }
    }

    proof fn lemma_highest_from_char(self, p: int)
        requires
            0 <= p < CFG_PRIO_MAX,
        ensures
            p <= self.spec_highest_from(p) < CFG_PRIO_MAX,
            forall|q: int| p <= q < self.spec_highest_from(p) ==> !self.spec_is_set(q),
            self.spec_is_set(self.spec_highest_from(p)) || self.spec_highest_from(p)
                == CFG_PRIO_MAX - 1,
        decreases CFG_PRIO_MAX - p,
    {
        if p < CFG_PRIO_MAX - 1 && !self.spec_is_set(p) {
            self.lemma_highest_from_char(p + 1);
        }
    }

    // The first-set characterization pins the value of `spec_highest_from`.
    proof fn lemma_highest_from_unique(self, p: int, r: int)
        requires
            0 <= p <= r < CFG_PRIO_MAX,
            forall|q: int| p <= q < r ==> !self.spec_is_set(q),
            self.spec_is_set(r) || r == CFG_PRIO_MAX - 1,
        ensures
            self.spec_highest_from(p) == r,
        decreases r - p,
    {
        if p < r {
            assert(!self.spec_is_set(p));
            self.lemma_highest_from_unique(p + 1, r);
        }
    }

    /// The reported highest priority is the least element of the set view.
    pub proof fn lemma_highest_is_min(self)
        ensures
            0 <= self.spec_highest() < CFG_PRIO_MAX,
            forall|q: int| 0 <= q < self.spec_highest() ==> !self@.contains(q),
            self@.contains(self.spec_highest()) || self.spec_highest() == CFG_PRIO_MAX - 1,
    {
        self.lemma_highest_from_char(0);
    }

    /// Create an empty priority table
    pub fn new() -> (r: PrioTable)
        ensures
            r.wf(),
            forall|q: int| !r.spec_is_set(q),
            r@ =~= Set::<int>::empty(),
    {
        let mut bitmap: Vec<u32> = Vec::new();
        while bitmap.len() < PRIO_TBL_SIZE
            invariant
                forall|i: int| 0 <= i < bitmap@.len() ==> bitmap@[i] == 0u32,
                bitmap@.len() <= PRIO_TBL_SIZE,
            decreases PRIO_TBL_SIZE - bitmap.len(),
        {
            bitmap.push(0u32);
        }
        let r = PrioTable { bitmap };
        proof {
            assert forall|q: int| !r.spec_is_set(q) by {
                if 0 <= q < CFG_PRIO_MAX {
                    lemma_zero_word_mask((q % 32) as u32);
                }
            }
        }
        r
    }

    /// Reset the table to empty
    pub fn init(&mut self)
        ensures
            final(self).wf(),
            forall|q: int| !final(self).spec_is_set(q),
            final(self)@ =~= Set::<int>::empty(),
    {
        let fresh = Self::new();
        *self = fresh;
    }

    /// Set the bit for `prio`
    pub fn insert(&mut self, prio: OsPrio)
        requires
            old(self).wf(),
            (prio as int) < CFG_PRIO_MAX,
        ensures
            final(self).wf(),
            forall|q: int| final(self).spec_is_set(q) <==> (q == prio as int || old(
                self,
            ).spec_is_set(q)),
            final(self)@ =~= old(self)@.insert(prio as int),
    {
        let word_idx: usize = (prio / 32) as usize;
        let bit_pos: u32 = (31 - (prio % 32)) as u32;
        proof {
            lemma_shl_is_mask((prio % 32) as u32);
        }
        let w = self.bitmap[word_idx];
        self.bitmap[word_idx] = w | (1u32 << bit_pos);
        proof {
            let p = prio as int;
            assert forall|q: int| final(self).spec_is_set(q) <==> (q == p || old(
                self,
            ).spec_is_set(q)) by {
                if 0 <= q < CFG_PRIO_MAX {
                    if q / 32 == p / 32 {
                        lemma_or_mask(w, (p % 32) as u32, (q % 32) as u32);
                        if q % 32 == p % 32 {
                            lemma_prio_split(p, q);
                        }
                    }
                }
            }
        }
    }

    /// Clear the bit for `prio`
    pub fn remove(&mut self, prio: OsPrio)
        requires
            old(self).wf(),
            (prio as int) < CFG_PRIO_MAX,
        ensures
            final(self).wf(),
            forall|q: int| final(self).spec_is_set(q) <==> (q != prio as int && old(
                self,
            ).spec_is_set(q)),
            final(self)@ =~= old(self)@.remove(prio as int),
    {
        let word_idx: usize = (prio / 32) as usize;
        let bit_pos: u32 = (31 - (prio % 32)) as u32;
        proof {
            lemma_shl_is_mask((prio % 32) as u32);
        }
        let w = self.bitmap[word_idx];
        self.bitmap[word_idx] = w & !(1u32 << bit_pos);
        proof {
            let p = prio as int;
            assert forall|q: int| final(self).spec_is_set(q) <==> (q != p && old(
                self,
            ).spec_is_set(q)) by {
                if 0 <= q < CFG_PRIO_MAX {
                    if q / 32 == p / 32 {
                        lemma_andnot_mask(w, (p % 32) as u32, (q % 32) as u32);
                        if q % 32 == p % 32 {
                            lemma_prio_split(p, q);
                        }
                    }
                }
            }
        }
    }

    /// Count leading zeros of a word; 32 when the word is zero
    fn clz(value: u32) -> (r: OsPrio)
        ensures
            r <= 32,
            (value == 0) <==> (r == 32),
            r < 32 ==> value & (0x8000_0000u32 >> (r as u32)) != 0,
            forall|b: u32| b < r ==> value & (0x8000_0000u32 >> b) == 0,
    {
        let r: u32 = value.leading_zeros();
        proof {
            vstd::std_specs::bits::axiom_u32_leading_zeros(value);
            let lz = vstd::std_specs::bits::u32_leading_zeros(value);
            if lz < 32 {
                lemma_mask_bit(value, lz as u32);
            }
            assert forall|b: u32| b < lz implies value & (0x8000_0000u32 >> b) == 0 by {
                lemma_mask_bit(value, b);
                assert((value >> ((31 - b) as u32)) & 1u32 == 0u32);
            }
        }
        r as OsPrio
    }

    /// Get the highest (numerically smallest) set priority, or the idle
    /// priority `CFG_PRIO_MAX - 1` when the table is empty
    pub fn get_highest(&self) -> (r: OsPrio)
        requires
            self.wf(),
        ensures
            (r as int) == self.spec_highest(),
            (r as int) < CFG_PRIO_MAX,
            forall|q: int| 0 <= q < r ==> !self.spec_is_set(q),
            self.spec_is_set(r as int) || r as int == CFG_PRIO_MAX - 1,
    {
        let mut prio: OsPrio = 0;
        let mut i: usize = 0;
        while i < self.bitmap.len()
            invariant
                self.wf(),
                i <= PRIO_TBL_SIZE,
                prio as int == 32 * i,
                forall|q: int| 0 <= q < 32 * i ==> !self.spec_is_set(q),
            decreases PRIO_TBL_SIZE - i,
        {
            let word = self.bitmap[i];
            if word != 0 {
                let lz = Self::clz(word);
                proof {
                    assert forall|q: int| 0 <= q < prio + lz implies !self.spec_is_set(q) by {
                        if q >= 32 * i {
                            assert(q / 32 == i as int && q % 32 == q - 32 * i) by {
                                vstd::arithmetic::div_mod::lemma_fundamental_div_mod_converse(
                                    q,
                                    32,
                                    i as int,
                                    q - 32 * i,
                                );
                            }
                        }
                    }
                    let rr = prio + lz;
                    assert(rr / 32 == i as int && rr % 32 == lz as int) by {
                        vstd::arithmetic::div_mod::lemma_fundamental_div_mod_converse(
                            rr as int,
                            32,
                            i as int,
                            lz as int,
                        );
                    }
                    self.lemma_highest_from_unique(0, (prio + lz) as int);
                }
                return prio + lz;
            }
            proof {
                assert forall|q: int| 0 <= q < 32 * (i + 1) implies !self.spec_is_set(q) by {
                    if q >= 32 * i {
                        assert(q / 32 == i as int) by {
                            vstd::arithmetic::div_mod::lemma_fundamental_div_mod_converse(
                                q,
                                32,
                                i as int,
                                q - 32 * i,
                            );
                        }
                        lemma_zero_word_mask((q % 32) as u32);
                    }
                }
            }
            prio = prio + 32;
            i = i + 1;
        }
        proof {
            self.lemma_highest_from_unique(0, CFG_PRIO_MAX - 1);
        }
        (CFG_PRIO_MAX - 1) as OsPrio
    }

    /// Check whether a specific priority bit is set
    pub fn is_set(&self, prio: OsPrio) -> (r: bool)
        requires
            self.wf(),
            (prio as int) < CFG_PRIO_MAX,
        ensures
            r == self.spec_is_set(prio as int),
    {
        let word_idx: usize = (prio / 32) as usize;
        let bit_pos: u32 = (31 - (prio % 32)) as u32;
        proof {
            lemma_shl_is_mask((prio % 32) as u32);
        }
        (self.bitmap[word_idx] & (1u32 << bit_pos)) != 0
    }

    /// Check whether no priority bit is set
    pub fn is_empty(&self) -> (r: bool)
        requires
            self.wf(),
        ensures
            r <==> (forall|q: int| !self.spec_is_set(q)),
    {
        let mut i: usize = 0;
        while i < self.bitmap.len()
            invariant
                self.wf(),
                i <= PRIO_TBL_SIZE,
                forall|q: int| 0 <= q < 32 * i ==> !self.spec_is_set(q),
            decreases PRIO_TBL_SIZE - i,
        {
            let word = self.bitmap[i];
            if word != 0 {
                let lz = Self::clz(word);
                proof {
                    let w: int = 32 * (i as int) + (lz as int);
                    assert(w / 32 == i as int && w % 32 == lz as int) by {
                        vstd::arithmetic::div_mod::lemma_fundamental_div_mod_converse(
                            w,
                            32,
                            i as int,
                            lz as int,
                        );
                    }
                    assert(self.spec_is_set(w));
                }
                return false;
            }
            proof {
                assert forall|q: int| 0 <= q < 32 * (i + 1) implies !self.spec_is_set(q) by {
                    if q >= 32 * i {
                        assert(q / 32 == i as int) by {
                            vstd::arithmetic::div_mod::lemma_fundamental_div_mod_converse(
                                q,
                                32,
                                i as int,
                                q - 32 * i,
                            );
                        }
                        lemma_zero_word_mask((q % 32) as u32);
                    }
                }
            }
            i = i + 1;
        }
        proof {
            assert forall|q: int| !self.spec_is_set(q) by {
                if 0 <= q < CFG_PRIO_MAX {
                    assert(q < 32 * PRIO_TBL_SIZE);
                }
            }
        }
        true
    }
}

impl Default for PrioTable {
    fn default() -> (r: Self)
        ensures
            r.wf(),
            forall|q: int| !r.spec_is_set(q),
    {
        Self::new()
    }
}

} // verus!
