use vstd::prelude::*;
use crate::vm::mem::{Addr, Alloc, VmRef, disjoint_blocks, within};
use crate::vm::mem::heap::HeapRef;

verus! {

/// The size in bytes of a block of the given order: the smallest block is sixteen bytes, and
/// each order doubles it.
pub open spec fn blk(order: nat) -> nat
    decreases order,
{
    if order == 0 {
        16
    } else {
        2 * blk((order - 1) as nat)
    }
}

/// Larger orders have larger blocks.
pub proof fn lemma_blk_mono(i: nat, k: nat)
    requires
        i <= k,
    ensures
        16 <= blk(i) <= blk(k),
    decreases k,
{
    if i < k {
        lemma_blk_mono(i, (k - 1) as nat);
    } else if k > 0 {
        lemma_blk_mono(0, (k - 1) as nat);
    }
}

/// A block of the largest order is larger than any heap a machine word can measure.
pub proof fn lemma_blk_62()
    ensures
        blk(62) > 0xffff_ffff_ffff_ffff,
{
    reveal_with_fuel(blk, 63);
}

/// Two blocks, each given by its address and size, do not overlap.
pub open spec fn apart(a: nat, sa: nat, b: nat, sb: nat) -> bool {
    a + sa <= b || b + sb <= a
}

/// A buddy allocator: free blocks are kept by order, a request is served from the smallest
/// free block that fits, split in halves down to the order it needs, and a freed block is
/// merged with its buddy for as long as the buddy is free too.
pub struct BuddyAllocator {
    size: usize,
    free: Vec<Vec<Addr>>,
    used: Vec<(Addr, usize)>,
    live_map: Ghost<Map<nat, nat>>,
}

impl BuddyAllocator {
    /// The number of orders the heap has room for.
    pub closed spec fn orders(&self) -> nat {
        self.free@.len()
    }

    /// Some free block has at least `need` bytes.
    pub closed spec fn has_free_block(&self, need: nat) -> bool {
        exists|j: int| 0 <= j < self.free@.len() && blk(j as nat) >= need && (#[trigger] self.free@[j])@.len() > 0
    }

    /// The block `(a, s)` overlaps no free and no used block.
    closed spec fn clear_of(&self, a: nat, s: nat) -> bool {
        &&& forall|k: int, i: int| 0 <= k < self.free@.len() && 0 <= i < self.free@[k]@.len()
            ==> apart(a, s, #[trigger] self.free@[k]@[i] as nat, blk(k as nat))
        &&& forall|j: int| 0 <= j < self.used@.len()
            ==> apart(a, s, (#[trigger] self.used@[j]).0 as nat, blk(self.used@[j].1 as nat))
    }

    /// Every free and used block lies in the heap, and no two of them overlap.
    closed spec fn blocks_ok(&self) -> bool {
        &&& forall|k: int, i: int| 0 <= k < self.free@.len() && 0 <= i < self.free@[k]@.len()
            ==> #[trigger] self.free@[k]@[i] + blk(k as nat) <= self.size
        &&& forall|j: int| 0 <= j < self.used@.len()
            ==> (#[trigger] self.used@[j]).1 < self.free@.len() && self.used@[j].0 + blk(self.used@[j].1 as nat) <= self.size
        &&& forall|k1: int, i1: int, k2: int, i2: int|
            0 <= k1 < self.free@.len() && 0 <= i1 < self.free@[k1]@.len()
            && 0 <= k2 < self.free@.len() && 0 <= i2 < self.free@[k2]@.len() && (k1 != k2 || i1 != i2)
            ==> apart(#[trigger] self.free@[k1]@[i1] as nat, blk(k1 as nat), #[trigger] self.free@[k2]@[i2] as nat, blk(k2 as nat))
        &&& forall|k: int, i: int, j: int|
            0 <= k < self.free@.len() && 0 <= i < self.free@[k]@.len() && 0 <= j < self.used@.len()
            ==> apart(#[trigger] self.free@[k]@[i] as nat, blk(k as nat), (#[trigger] self.used@[j]).0 as nat, blk(self.used@[j].1 as nat))
        &&& forall|j1: int, j2: int| 0 <= j1 < self.used@.len() && 0 <= j2 < self.used@.len() && j1 != j2
            ==> apart((#[trigger] self.used@[j1]).0 as nat, blk(self.used@[j1].1 as nat), (#[trigger] self.used@[j2]).0 as nat, blk(self.used@[j2].1 as nat))
    }

    /// The ghost map of live blocks is the used list.
    closed spec fn map_ok(&self) -> bool {
        &&& forall|j: int| 0 <= j < self.used@.len()
            ==> self.live_map@.contains_key((#[trigger] self.used@[j]).0 as nat)
                && self.live_map@[self.used@[j].0 as nat] == blk(self.used@[j].1 as nat)
        &&& forall|a: nat| #[trigger] self.live_map@.contains_key(a)
            ==> exists|j: int| 0 <= j < self.used@.len() && (#[trigger] self.used@[j]).0 == a
    }

    /// The bookkeeping is consistent.
    closed spec fn inv(&self) -> bool {
        &&& self.free@.len() < 64
        &&& self.free@.len() > 0 ==> blk((self.free@.len() - 1) as nat) <= self.size
        &&& self.blocks_ok()
        &&& self.map_ok()
    }

}

impl BuddyAllocator {
    /// Adding a block that overlaps nothing to a free list keeps the blocks apart.
    proof fn lemma_push_free(old: Self, new: Self, k: int, a: nat)
        requires
            old.blocks_ok(),
            0 <= k < old.free@.len(),
            old.clear_of(a, blk(k as nat)),
            a + blk(k as nat) <= old.size,
            new.size == old.size,
            new.used@ == old.used@,
            new.free@.len() == old.free@.len(),
            new.free@[k]@.len() == old.free@[k]@.len() + 1,
            new.free@[k]@[old.free@[k]@.len() as int] == a,
            forall|i: int| 0 <= i < old.free@[k]@.len() ==> #[trigger] new.free@[k]@[i] == old.free@[k]@[i],
            forall|o: int| 0 <= o < old.free@.len() && o != k ==> #[trigger] new.free@[o] == old.free@[o],
        ensures
            new.blocks_ok(),
            forall|c: nat, sc: nat| old.clear_of(c, sc) && apart(c, sc, a, blk(k as nat)) ==> #[trigger] new.clear_of(c, sc),
    {
        let top = old.free@[k]@.len() as int;
        assert forall|k1: int, i1: int| 0 <= k1 < new.free@.len() && 0 <= i1 < new.free@[k1]@.len()
            implies (#[trigger] new.free@[k1]@[i1] as nat) == (if k1 == k && i1 == top { a } else { old.free@[k1]@[i1] as nat })
                && (!(k1 == k && i1 == top) ==> 0 <= i1 < old.free@[k1]@.len()) by {
            if k1 != k {
                assert(new.free@[k1] == old.free@[k1]);
            }
        }
        assert forall|k1: int, i1: int| 0 <= k1 < new.free@.len() && 0 <= i1 < new.free@[k1]@.len()
            implies #[trigger] new.free@[k1]@[i1] + blk(k1 as nat) <= new.size by {
            if !(k1 == k && i1 == top) {
                assert(old.free@[k1]@[i1] + blk(k1 as nat) <= old.size);
            }
        }
        assert forall|k1: int, i1: int, k2: int, i2: int|
            0 <= k1 < new.free@.len() && 0 <= i1 < new.free@[k1]@.len()
            && 0 <= k2 < new.free@.len() && 0 <= i2 < new.free@[k2]@.len() && (k1 != k2 || i1 != i2)
            implies apart(#[trigger] new.free@[k1]@[i1] as nat, blk(k1 as nat), #[trigger] new.free@[k2]@[i2] as nat, blk(k2 as nat)) by {
            let n1 = k1 == k && i1 == top;
            let n2 = k2 == k && i2 == top;
            if n1 && !n2 {
                assert(apart(a, blk(k as nat), old.free@[k2]@[i2] as nat, blk(k2 as nat)));
            } else if n2 && !n1 {
                assert(apart(a, blk(k as nat), old.free@[k1]@[i1] as nat, blk(k1 as nat)));
            } else if !n1 && !n2 {
                assert(apart(old.free@[k1]@[i1] as nat, blk(k1 as nat), old.free@[k2]@[i2] as nat, blk(k2 as nat)));
            }
        }
        assert forall|k1: int, i1: int, j: int|
            0 <= k1 < new.free@.len() && 0 <= i1 < new.free@[k1]@.len() && 0 <= j < new.used@.len()
            implies apart(#[trigger] new.free@[k1]@[i1] as nat, blk(k1 as nat), (#[trigger] new.used@[j]).0 as nat, blk(new.used@[j].1 as nat)) by {
            assert(new.used@[j] == old.used@[j]);
            if k1 == k && i1 == top {
                assert(apart(a, blk(k as nat), old.used@[j].0 as nat, blk(old.used@[j].1 as nat)));
            } else {
                assert(apart(old.free@[k1]@[i1] as nat, blk(k1 as nat), old.used@[j].0 as nat, blk(old.used@[j].1 as nat)));
            }
        }
        assert forall|c: nat, sc: nat| old.clear_of(c, sc) && apart(c, sc, a, blk(k as nat)) implies #[trigger] new.clear_of(c, sc) by {
            assert forall|k1: int, i1: int| 0 <= k1 < new.free@.len() && 0 <= i1 < new.free@[k1]@.len()
                implies apart(c, sc, #[trigger] new.free@[k1]@[i1] as nat, blk(k1 as nat)) by {
                if !(k1 == k && i1 == top) {
                    assert(apart(c, sc, old.free@[k1]@[i1] as nat, blk(k1 as nat)));
                }
            }
            assert forall|j: int| 0 <= j < new.used@.len()
                implies apart(c, sc, (#[trigger] new.used@[j]).0 as nat, blk(new.used@[j].1 as nat)) by {
                assert(new.used@[j] == old.used@[j]);
            }
        }
    }
}

impl BuddyAllocator {
    /// Taking a block out of a free list keeps the rest apart, and the block taken overlaps
    /// none of them.
    proof fn lemma_take_free(old: Self, new: Self, k: int, idx: int)
        requires
            old.blocks_ok(),
            0 <= k < old.free@.len(),
            0 <= idx < old.free@[k]@.len(),
            new.size == old.size,
            new.used@ == old.used@,
            new.free@.len() == old.free@.len(),
            new.free@[k]@ == old.free@[k]@.remove(idx),
            forall|o: int| 0 <= o < old.free@.len() && o != k ==> #[trigger] new.free@[o] == old.free@[o],
        ensures
            new.blocks_ok(),
            new.clear_of(old.free@[k]@[idx] as nat, blk(k as nat)),
            old.free@[k]@[idx] + blk(k as nat) <= old.size,
            forall|c: nat, sc: nat| #[trigger] old.clear_of(c, sc) ==> new.clear_of(c, sc),
    {
        let a = old.free@[k]@[idx] as nat;
        assert forall|k1: int, i1: int| 0 <= k1 < new.free@.len() && 0 <= i1 < new.free@[k1]@.len()
            implies #[trigger] new.free@[k1]@[i1] == old.free@[k1]@[if k1 == k && i1 >= idx { i1 + 1 } else { i1 }]
                && 0 <= (if k1 == k && i1 >= idx { i1 + 1 } else { i1 }) < old.free@[k1]@.len()
                && !(k1 == k && (if k1 == k && i1 >= idx { i1 + 1 } else { i1 }) == idx) by {
            if k1 != k {
                assert(new.free@[k1] == old.free@[k1]);
            }
        }
        assert forall|k1: int, i1: int| 0 <= k1 < new.free@.len() && 0 <= i1 < new.free@[k1]@.len()
            implies #[trigger] new.free@[k1]@[i1] + blk(k1 as nat) <= new.size by {
            let o1 = if k1 == k && i1 >= idx { i1 + 1 } else { i1 };
            assert(old.free@[k1]@[o1] + blk(k1 as nat) <= old.size);
        }
        assert forall|k1: int, i1: int, k2: int, i2: int|
            0 <= k1 < new.free@.len() && 0 <= i1 < new.free@[k1]@.len()
            && 0 <= k2 < new.free@.len() && 0 <= i2 < new.free@[k2]@.len() && (k1 != k2 || i1 != i2)
            implies apart(#[trigger] new.free@[k1]@[i1] as nat, blk(k1 as nat), #[trigger] new.free@[k2]@[i2] as nat, blk(k2 as nat)) by {
            let o1 = if k1 == k && i1 >= idx { i1 + 1 } else { i1 };
            let o2 = if k2 == k && i2 >= idx { i2 + 1 } else { i2 };
            assert(apart(old.free@[k1]@[o1] as nat, blk(k1 as nat), old.free@[k2]@[o2] as nat, blk(k2 as nat)));
        }
        assert forall|k1: int, i1: int, j: int|
            0 <= k1 < new.free@.len() && 0 <= i1 < new.free@[k1]@.len() && 0 <= j < new.used@.len()
            implies apart(#[trigger] new.free@[k1]@[i1] as nat, blk(k1 as nat), (#[trigger] new.used@[j]).0 as nat, blk(new.used@[j].1 as nat)) by {
            let o1 = if k1 == k && i1 >= idx { i1 + 1 } else { i1 };
            assert(new.used@[j] == old.used@[j]);
            assert(apart(old.free@[k1]@[o1] as nat, blk(k1 as nat), old.used@[j].0 as nat, blk(old.used@[j].1 as nat)));
        }
        assert forall|k1: int, i1: int| 0 <= k1 < new.free@.len() && 0 <= i1 < new.free@[k1]@.len()
            implies apart(a, blk(k as nat), #[trigger] new.free@[k1]@[i1] as nat, blk(k1 as nat)) by {
            let o1 = if k1 == k && i1 >= idx { i1 + 1 } else { i1 };
            assert(apart(old.free@[k]@[idx] as nat, blk(k as nat), old.free@[k1]@[o1] as nat, blk(k1 as nat)));
        }
        assert forall|j: int| 0 <= j < new.used@.len()
            implies apart(a, blk(k as nat), (#[trigger] new.used@[j]).0 as nat, blk(new.used@[j].1 as nat)) by {
            assert(new.used@[j] == old.used@[j]);
            assert(apart(old.free@[k]@[idx] as nat, blk(k as nat), old.used@[j].0 as nat, blk(old.used@[j].1 as nat)));
        }
        assert forall|c: nat, sc: nat| #[trigger] old.clear_of(c, sc) implies new.clear_of(c, sc) by {
            assert forall|k1: int, i1: int| 0 <= k1 < new.free@.len() && 0 <= i1 < new.free@[k1]@.len()
                implies apart(c, sc, #[trigger] new.free@[k1]@[i1] as nat, blk(k1 as nat)) by {
                let o1 = if k1 == k && i1 >= idx { i1 + 1 } else { i1 };
                assert(apart(c, sc, old.free@[k1]@[o1] as nat, blk(k1 as nat)));
            }
            assert forall|j: int| 0 <= j < new.used@.len()
                implies apart(c, sc, (#[trigger] new.used@[j]).0 as nat, blk(new.used@[j].1 as nat)) by {
                assert(new.used@[j] == old.used@[j]);
            }
        }
    }
}

impl BuddyAllocator {
    /// Recording a block that overlaps nothing as used keeps the blocks apart.
    proof fn lemma_push_used(old: Self, new: Self, a: Addr, k: usize)
        requires
            old.blocks_ok(),
            k < old.free@.len(),
            old.clear_of(a as nat, blk(k as nat)),
            a + blk(k as nat) <= old.size,
            new.size == old.size,
            new.free@ == old.free@,
            new.used@ == old.used@.push((a, k)),
        ensures
            new.blocks_ok(),
    {
        let top = old.used@.len() as int;
        assert forall|j: int| 0 <= j < new.used@.len()
            implies (#[trigger] new.used@[j]).1 < new.free@.len() && new.used@[j].0 + blk(new.used@[j].1 as nat) <= new.size by {
            if j < top {
                assert(new.used@[j] == old.used@[j]);
            }
        }
        assert forall|k1: int, i1: int, j: int|
            0 <= k1 < new.free@.len() && 0 <= i1 < new.free@[k1]@.len() && 0 <= j < new.used@.len()
            implies apart(#[trigger] new.free@[k1]@[i1] as nat, blk(k1 as nat), (#[trigger] new.used@[j]).0 as nat, blk(new.used@[j].1 as nat)) by {
            if j < top {
                assert(new.used@[j] == old.used@[j]);
                assert(apart(old.free@[k1]@[i1] as nat, blk(k1 as nat), old.used@[j].0 as nat, blk(old.used@[j].1 as nat)));
            } else {
                assert(apart(a as nat, blk(k as nat), old.free@[k1]@[i1] as nat, blk(k1 as nat)));
            }
        }
        assert forall|j1: int, j2: int| 0 <= j1 < new.used@.len() && 0 <= j2 < new.used@.len() && j1 != j2
            implies apart((#[trigger] new.used@[j1]).0 as nat, blk(new.used@[j1].1 as nat), (#[trigger] new.used@[j2]).0 as nat, blk(new.used@[j2].1 as nat)) by {
            if j1 < top && j2 < top {
                assert(new.used@[j1] == old.used@[j1]);
                assert(new.used@[j2] == old.used@[j2]);
                assert(apart(old.used@[j1].0 as nat, blk(old.used@[j1].1 as nat), old.used@[j2].0 as nat, blk(old.used@[j2].1 as nat)));
            } else if j1 < top {
                assert(new.used@[j1] == old.used@[j1]);
                assert(apart(a as nat, blk(k as nat), old.used@[j1].0 as nat, blk(old.used@[j1].1 as nat)));
            } else {
                assert(new.used@[j2] == old.used@[j2]);
                assert(apart(a as nat, blk(k as nat), old.used@[j2].0 as nat, blk(old.used@[j2].1 as nat)));
            }
        }
    }

    /// Dropping a used block keeps the rest apart, and the block dropped overlaps none of them.
    proof fn lemma_remove_used(old: Self, new: Self, j: int)
        requires
            old.blocks_ok(),
            0 <= j < old.used@.len(),
            new.size == old.size,
            new.free@ == old.free@,
            new.used@ == old.used@.remove(j),
        ensures
            new.blocks_ok(),
            new.clear_of(old.used@[j].0 as nat, blk(old.used@[j].1 as nat)),
            old.used@[j].0 + blk(old.used@[j].1 as nat) <= old.size,
            forall|c: nat, sc: nat| #[trigger] old.clear_of(c, sc) ==> new.clear_of(c, sc),
    {
        let a = old.used@[j].0 as nat;
        let sa = blk(old.used@[j].1 as nat);
        assert forall|j1: int| 0 <= j1 < new.used@.len()
            implies #[trigger] new.used@[j1] == old.used@[if j1 >= j { j1 + 1 } else { j1 }] by {
        }
        assert forall|j1: int| 0 <= j1 < new.used@.len()
            implies (#[trigger] new.used@[j1]).1 < new.free@.len() && new.used@[j1].0 + blk(new.used@[j1].1 as nat) <= new.size by {
            let o1 = if j1 >= j { j1 + 1 } else { j1 };
            assert(new.used@[j1] == old.used@[o1]);
        }
        assert forall|k1: int, i1: int, j1: int|
            0 <= k1 < new.free@.len() && 0 <= i1 < new.free@[k1]@.len() && 0 <= j1 < new.used@.len()
            implies apart(#[trigger] new.free@[k1]@[i1] as nat, blk(k1 as nat), (#[trigger] new.used@[j1]).0 as nat, blk(new.used@[j1].1 as nat)) by {
            let o1 = if j1 >= j { j1 + 1 } else { j1 };
            assert(new.used@[j1] == old.used@[o1]);
            assert(apart(old.free@[k1]@[i1] as nat, blk(k1 as nat), old.used@[o1].0 as nat, blk(old.used@[o1].1 as nat)));
        }
        assert forall|j1: int, j2: int| 0 <= j1 < new.used@.len() && 0 <= j2 < new.used@.len() && j1 != j2
            implies apart((#[trigger] new.used@[j1]).0 as nat, blk(new.used@[j1].1 as nat), (#[trigger] new.used@[j2]).0 as nat, blk(new.used@[j2].1 as nat)) by {
            let o1 = if j1 >= j { j1 + 1 } else { j1 };
            let o2 = if j2 >= j { j2 + 1 } else { j2 };
            assert(new.used@[j1] == old.used@[o1]);
            assert(new.used@[j2] == old.used@[o2]);
            assert(apart(old.used@[o1].0 as nat, blk(old.used@[o1].1 as nat), old.used@[o2].0 as nat, blk(old.used@[o2].1 as nat)));
        }
        assert forall|k1: int, i1: int| 0 <= k1 < new.free@.len() && 0 <= i1 < new.free@[k1]@.len()
            implies apart(a, sa, #[trigger] new.free@[k1]@[i1] as nat, blk(k1 as nat)) by {
            assert(apart(old.free@[k1]@[i1] as nat, blk(k1 as nat), old.used@[j].0 as nat, blk(old.used@[j].1 as nat)));
        }
        assert forall|j1: int| 0 <= j1 < new.used@.len()
            implies apart(a, sa, (#[trigger] new.used@[j1]).0 as nat, blk(new.used@[j1].1 as nat)) by {
            let o1 = if j1 >= j { j1 + 1 } else { j1 };
            assert(new.used@[j1] == old.used@[o1]);
            assert(apart(old.used@[j].0 as nat, blk(old.used@[j].1 as nat), old.used@[o1].0 as nat, blk(old.used@[o1].1 as nat)));
        }
        assert forall|c: nat, sc: nat| #[trigger] old.clear_of(c, sc) implies new.clear_of(c, sc) by {
            assert forall|j1: int| 0 <= j1 < new.used@.len()
                implies apart(c, sc, (#[trigger] new.used@[j1]).0 as nat, blk(new.used@[j1].1 as nat)) by {
                let o1 = if j1 >= j { j1 + 1 } else { j1 };
                assert(new.used@[j1] == old.used@[o1]);
            }
        }
    }
}

impl BuddyAllocator {
    /// The map of live blocks depends on the used list alone.
    proof fn lemma_map_frame(x: Self, y: Self)
        requires
            x.map_ok(),
            y.used@ == x.used@,
            y.live_map@ == x.live_map@,
        ensures
            y.map_ok(),
    {
        assert forall|a: nat| #[trigger] y.live_map@.contains_key(a)
            implies exists|j: int| 0 <= j < y.used@.len() && (#[trigger] y.used@[j]).0 == a by {
            let j = choose|j: int| 0 <= j < x.used@.len() && (#[trigger] x.used@[j]).0 == a;
            assert(y.used@[j].0 == a);
        }
    }

    /// A block inside a block that overlaps nothing overlaps nothing either.
    proof fn lemma_clear_shrink(x: Self, a: nat, sa: nat, b: nat, sb: nat)
        requires
            x.clear_of(a, sa),
            a <= b,
            b + sb <= a + sa,
        ensures
            x.clear_of(b, sb),
    {
        assert forall|k1: int, i1: int| 0 <= k1 < x.free@.len() && 0 <= i1 < x.free@[k1]@.len()
            implies apart(b, sb, #[trigger] x.free@[k1]@[i1] as nat, blk(k1 as nat)) by {
            assert(apart(a, sa, x.free@[k1]@[i1] as nat, blk(k1 as nat)));
        }
        assert forall|j: int| 0 <= j < x.used@.len()
            implies apart(b, sb, (#[trigger] x.used@[j]).0 as nat, blk(x.used@[j].1 as nat)) by {
            assert(apart(a, sa, x.used@[j].0 as nat, blk(x.used@[j].1 as nat)));
        }
    }

    /// Two adjacent blocks of one size that overlap nothing make a block of twice the size
    /// that overlaps nothing.
    proof fn lemma_clear_union(x: Self, a: nat, b: nat, s: nat)
        requires
            x.clear_of(a, s),
            x.clear_of(b, s),
            b == a + s,
        ensures
            x.clear_of(a, 2 * s),
    {
        assert forall|k1: int, i1: int| 0 <= k1 < x.free@.len() && 0 <= i1 < x.free@[k1]@.len()
            implies apart(a, 2 * s, #[trigger] x.free@[k1]@[i1] as nat, blk(k1 as nat)) by {
            lemma_blk_mono(0, k1 as nat);
            assert(apart(a, s, x.free@[k1]@[i1] as nat, blk(k1 as nat)));
            assert(apart(b, s, x.free@[k1]@[i1] as nat, blk(k1 as nat)));
        }
        assert forall|j: int| 0 <= j < x.used@.len()
            implies apart(a, 2 * s, (#[trigger] x.used@[j]).0 as nat, blk(x.used@[j].1 as nat)) by {
            lemma_blk_mono(0, x.used@[j].1 as nat);
            assert(apart(a, s, x.used@[j].0 as nat, blk(x.used@[j].1 as nat)));
            assert(apart(b, s, x.used@[j].0 as nat, blk(x.used@[j].1 as nat)));
        }
    }
}

/// The size of a block of order `k`.
fn order_size(k: usize) -> (r: usize)
    requires
        blk(k as nat) <= usize::MAX,
    ensures
        r == blk(k as nat),
{
    let mut s: usize = 16;
    let mut i: usize = 0;
    while i < k
        invariant
            i <= k,
            s == blk(i as nat),
            blk(k as nat) <= usize::MAX,
        decreases k - i,
    {
        proof {
            lemma_blk_mono((i + 1) as nat, k as nat);
        }
        s = s * 2;
        i = i + 1;
    }
    s
}

/// Adds a block to the free list of order `k`.
fn push_free(free: &mut Vec<Vec<Addr>>, k: usize, a: Addr)
    requires
        k < old(free)@.len(),
    ensures
        final(free)@.len() == old(free)@.len(),
        final(free)@[k as int]@ == old(free)@[k as int]@.push(a),
        forall|o: int| 0 <= o < old(free)@.len() && o != k ==> #[trigger] final(free)@[o] == old(free)@[o],
{
    free[k].push(a);
}

/// Takes the block at `idx` out of the free list of order `k`.
fn take_free(free: &mut Vec<Vec<Addr>>, k: usize, idx: usize) -> (r: Addr)
    requires
        k < old(free)@.len(),
        idx < old(free)@[k as int]@.len(),
    ensures
        r == old(free)@[k as int]@[idx as int],
        final(free)@.len() == old(free)@.len(),
        final(free)@[k as int]@ == old(free)@[k as int]@.remove(idx as int),
        forall|o: int| 0 <= o < old(free)@.len() && o != k ==> #[trigger] final(free)@[o] == old(free)@[o],
{
    free[k].remove(idx)
}

impl Alloc for BuddyAllocator {
    type Ref = HeapRef;

    closed spec fn wf(&self) -> bool {
        self.inv()
    }

    closed spec fn capacity(&self) -> nat {
        self.size as nat
    }

    closed spec fn live(&self) -> Map<nat, nat> {
        self.live_map@
    }

    /// Some free block is at least as large as the request and its alignment.
    open spec fn can_serve(&self, size: nat, align: nat) -> bool {
        self.has_free_block(if size < align { align } else { size })
    }

    proof fn lemma_live(&self) {
        assert forall|a: nat| #[trigger] self.live_map@.contains_key(a) implies a + self.live_map@[a] <= self.size by {
            let j = choose|j: int| 0 <= j < self.used@.len() && (#[trigger] self.used@[j]).0 == a;
        }
        assert forall|a: nat, b: nat|
            #[trigger] self.live_map@.contains_key(a) && #[trigger] self.live_map@.contains_key(b) && a != b
            implies a + self.live_map@[a] <= b || b + self.live_map@[b] <= a by {
            let ja = choose|j: int| 0 <= j < self.used@.len() && (#[trigger] self.used@[j]).0 == a;
            let jb = choose|j: int| 0 <= j < self.used@.len() && (#[trigger] self.used@[j]).0 == b;
            assert(ja != jb);
        }
    }

    /// The heap is cut into blocks of the largest order that fits it (sixteen bytes, doubled up to
    /// sixty-two times) and smaller ones for the rest; a request is served exactly where it is no
    /// larger than that largest block.
    fn new(size: usize) -> (r: Self)
        ensures
            (r.orders() > 0) == (size >= 16),
            r.orders() > 0 ==> blk((r.orders() - 1) as nat) <= size
                && (r.orders() == 63 || size < 2 * blk((r.orders() - 1) as nat)),
            forall|need: nat| #[trigger] r.has_free_block(need)
                <==> (r.orders() > 0 && need <= blk((r.orders() - 1) as nat)),
    {
        proof {
            lemma_blk_62();
        }
        let mut n: usize = 0;
        if size >= 16 {
            n = 1;
            let mut s: usize = 16;
            while n < 63 && s <= size / 2
                invariant
                    1 <= n <= 63,
                    s == blk((n - 1) as nat),
                    s <= size,
                decreases 63 - n,
            {
                s = s * 2;
                n = n + 1;
            }
            assert(n == 63 || size < 2 * blk((n - 1) as nat));
        }
        let mut free: Vec<Vec<Addr>> = Vec::new();
        for k in 0..n
            invariant
                free@.len() == k,
                forall|o: int| 0 <= o < k ==> (#[trigger] free@[o])@.len() == 0,
        {
            free.push(Vec::new());
        }
        let mut r = BuddyAllocator { size, free, used: Vec::new(), live_map: Ghost(Map::empty()) };
        let mut a: usize = 0;
        let mut k: usize = n;
        assert forall|o: int| 0 <= o < r.free@.len() implies (#[trigger] r.free@[o])@.len() == 0 by {
        }
        while k > 0
            invariant
                r.size == size,
                r.free@.len() == n,
                n < 64,
                n > 0 ==> blk((n - 1) as nat) <= size,
                r.used@.len() == 0,
                r.live_map@ == Map::<nat, nat>::empty(),
                a <= size,
                k <= n,
                r.blocks_ok(),
                forall|o: int, i: int| 0 <= o < r.free@.len() && 0 <= i < r.free@[o]@.len()
                    ==> #[trigger] r.free@[o]@[i] + blk(o as nat) <= a,
                k == n ==> a == 0,
                k < n ==> r.free@[n - 1]@.len() > 0,
            decreases k,
        {
            k = k - 1;
            proof {
                lemma_blk_mono(k as nat, (n - 1) as nat);
            }
            let s = order_size(k);
            let ghost a0 = a;
            while s <= size - a
                invariant
                    a0 <= a,
                    a > a0 ==> r.free@[k as int]@.len() > 0,
                    k + 1 < n ==> r.free@[n - 1]@.len() > 0,
                    r.size == size,
                    r.free@.len() == n,
                    r.used@.len() == 0,
                    r.live_map@ == Map::<nat, nat>::empty(),
                    a <= size,
                    k < n,
                    s == blk(k as nat),
                    s >= 16,
                    r.blocks_ok(),
                    forall|o: int, i: int| 0 <= o < r.free@.len() && 0 <= i < r.free@[o]@.len()
                        ==> #[trigger] r.free@[o]@[i] + blk(o as nat) <= a,
                decreases size - a,
            {
                let ghost before = r;
                proof {
                    assert forall|o: int, i: int| 0 <= o < before.free@.len() && 0 <= i < before.free@[o]@.len()
                        implies apart(a as nat, s as nat, #[trigger] before.free@[o]@[i] as nat, blk(o as nat)) by {
                    }
                }
                push_free(&mut r.free, k, a);
                proof {
                    if k + 1 < n {
                        assert(r.free@[n - 1] == before.free@[n - 1]);
                    }
                    Self::lemma_push_free(before, r, k as int, a as nat);
                    assert forall|o: int, i: int| 0 <= o < r.free@.len() && 0 <= i < r.free@[o]@.len()
                        implies #[trigger] r.free@[o]@[i] + blk(o as nat) <= a + s by {
                        if o != k as int || i < before.free@[o]@.len() {
                            if o != k as int {
                                assert(r.free@[o] == before.free@[o]);
                            }
                            assert(before.free@[o]@[i] + blk(o as nat) <= a);
                        }
                    }
                }
                a = a + s;
            }
        }
        proof {
            assert(r.live_map@ =~= Map::<nat, nat>::empty());
            assert forall|need: nat| #[trigger] r.has_free_block(need)
                <==> (r.orders() > 0 && need <= blk((r.orders() - 1) as nat)) by {
                if r.has_free_block(need) {
                    let j = choose|j: int| 0 <= j < r.free@.len() && blk(j as nat) >= need
                        && (#[trigger] r.free@[j])@.len() > 0;
                    lemma_blk_mono(j as nat, (n - 1) as nat);
                }
                if r.orders() > 0 && need <= blk((r.orders() - 1) as nat) {
                    assert(r.free@[n - 1]@.len() > 0);
                }
            }
        }
        r
    }

    /// A request is served exactly where some free block is large enough for it.
    fn allocate(&mut self, size: usize, align: usize) -> (r: Option<HeapRef>) {
        let need = if size < align {
            align
        } else {
            size
        };
        let n = self.free.len();
        let mut k: usize = 0;
        while k < n
            invariant
                k <= n,
                n == self.free@.len(),
                self.inv(),
                forall|i: nat| i < k ==> #[trigger] blk(i) < need,
            ensures
                k <= n,
                k < n ==> blk(k as nat) >= need,
                forall|i: nat| i < k ==> #[trigger] blk(i) < need,
            decreases n - k,
        {
            proof {
                lemma_blk_mono(k as nat, (n - 1) as nat);
            }
            if order_size(k) >= need {
                break;
            }
            k = k + 1;
        }
        if k == n {
            proof {
                assert(!self.has_free_block(need as nat));
            }
            return None;
        }
        let mut j: usize = k;
        while j < n && self.free[j].len() == 0
            invariant
                k <= j <= n,
                n == self.free@.len(),
                forall|i: int| k <= i < j ==> (#[trigger] self.free@[i])@.len() == 0,
            decreases n - j,
        {
            j = j + 1;
        }
        if j == n {
            proof {
                assert(!self.has_free_block(need as nat)) by {
                    if self.has_free_block(need as nat) {
                        let i = choose|i: int| 0 <= i < self.free@.len() && blk(i as nat) >= need
                            && (#[trigger] self.free@[i])@.len() > 0;
                        if i >= k {
                            assert(self.free@[i]@.len() == 0);
                        }
                    }
                }
            }
            return None;
        }
        proof {
            lemma_blk_mono(k as nat, j as nat);
            assert(self.free@[j as int]@.len() > 0);
            assert(self.has_free_block(need as nat));
        }
        let idx = self.free[j].len() - 1;
        let ghost start = *self;
        let a = take_free(&mut self.free, j, idx);
        proof {
            Self::lemma_take_free(start, *self, j as int, idx as int);
            Self::lemma_map_frame(start, *self);
        }
        while j > k
            invariant
                k <= j < n,
                n == self.free@.len(),
                n < 64,
                blk((n - 1) as nat) <= self.size,
                self.size == old(self).size,
                self.used@ == old(self).used@,
                self.live_map == old(self).live_map,
                self.map_ok(),
                self.blocks_ok(),
                self.clear_of(a as nat, blk(j as nat)),
                a + blk(j as nat) <= self.size,
            decreases j,
        {
            j = j - 1;
            proof {
                lemma_blk_mono(j as nat, (n - 1) as nat);
            }
            let s = order_size(j);
            let ghost before = *self;
            proof {
                Self::lemma_clear_shrink(before, a as nat, (2 * s) as nat, (a + s) as nat, s as nat);
                Self::lemma_clear_shrink(before, a as nat, (2 * s) as nat, a as nat, s as nat);
            }
            push_free(&mut self.free, j, a + s);
            proof {
                Self::lemma_push_free(before, *self, j as int, (a + s) as nat);
                Self::lemma_map_frame(before, *self);
                assert(apart(a as nat, s as nat, (a + s) as nat, blk(j as nat)));
                assert(self.clear_of(a as nat, s as nat));
            }
        }
        let ghost before = *self;
        proof {
            assert forall|i: int| 0 <= i < before.used@.len() implies (#[trigger] before.used@[i]).0 != a by {
                lemma_blk_mono(0, k as nat);
                lemma_blk_mono(0, before.used@[i].1 as nat);
                assert(apart(a as nat, blk(k as nat), before.used@[i].0 as nat, blk(before.used@[i].1 as nat)));
            }
        }
        self.used.push((a, k));
        proof {
            Self::lemma_push_used(before, *self, a, k);
        }
        self.live_map = Ghost(self.live_map@.insert(a as nat, blk(k as nat)));
        proof {
            let top = before.used@.len() as int;
            assert(!before.live_map@.contains_key(a as nat)) by {
                if before.live_map@.contains_key(a as nat) {
                    let i = choose|i: int| 0 <= i < before.used@.len() && (#[trigger] before.used@[i]).0 == a as nat;
                    assert(before.used@[i].0 != a);
                }
            }
            assert forall|i: int| 0 <= i < self.used@.len()
                implies self.live_map@.contains_key((#[trigger] self.used@[i]).0 as nat)
                    && self.live_map@[self.used@[i].0 as nat] == blk(self.used@[i].1 as nat) by {
                if i < top {
                    assert(self.used@[i] == before.used@[i]);
                    assert(before.used@[i].0 != a);
                }
            }
            assert forall|x: nat| #[trigger] self.live_map@.contains_key(x)
                implies exists|i: int| 0 <= i < self.used@.len() && (#[trigger] self.used@[i]).0 == x by {
                if x == a as nat {
                    assert(self.used@[top].0 == x);
                } else {
                    let i = choose|i: int| 0 <= i < before.used@.len() && (#[trigger] before.used@[i]).0 == x;
                    assert(self.used@[i] == before.used@[i]);
                }
            }
            assert(self.live_map@ == old(self).live_map@.insert(a as nat, self.live_map@[a as nat]));
        }
        Some(HeapRef::new(a))
    }

    fn free(&mut self, rf: HeapRef) {
        let addr = rf.addr;
        let nu = self.used.len();
        let mut j: usize = 0;
        while j < nu && self.used[j].0 != addr
            invariant
                j <= nu,
                nu == self.used@.len(),
                forall|i: int| 0 <= i < j ==> (#[trigger] self.used@[i]).0 != addr,
            decreases nu - j,
        {
            j = j + 1;
        }
        if j == nu {
            proof {
                let i = choose|i: int| 0 <= i < self.used@.len() && (#[trigger] self.used@[i]).0 == addr as nat;
                assert(self.used@[i].0 != addr);
            }
            return;
        }
        let k0 = self.used[j].1;
        let ghost start = *self;
        self.used.remove(j);
        proof {
            Self::lemma_remove_used(start, *self, j as int);
        }
        self.live_map = Ghost(self.live_map@.remove(addr as nat));
        proof {
            assert forall|i: int| 0 <= i < start.used@.len() && i != j implies (#[trigger] start.used@[i]).0 != addr by {
                lemma_blk_mono(0, start.used@[i].1 as nat);
                lemma_blk_mono(0, start.used@[j as int].1 as nat);
                assert(apart(start.used@[i].0 as nat, blk(start.used@[i].1 as nat), start.used@[j as int].0 as nat, blk(start.used@[j as int].1 as nat)));
            }
            assert forall|i: int| 0 <= i < self.used@.len()
                implies self.live_map@.contains_key((#[trigger] self.used@[i]).0 as nat)
                    && self.live_map@[self.used@[i].0 as nat] == blk(self.used@[i].1 as nat) by {
                let o = if i >= j { i + 1 } else { i };
                assert(self.used@[i] == start.used@[o]);
                assert(start.used@[o].0 != addr);
            }
            assert forall|x: nat| #[trigger] self.live_map@.contains_key(x)
                implies exists|i: int| 0 <= i < self.used@.len() && (#[trigger] self.used@[i]).0 == x by {
                let i = choose|i: int| 0 <= i < start.used@.len() && (#[trigger] start.used@[i]).0 == x;
                assert(i != j);
                let ni = if i > j { i - 1 } else { i };
                assert(self.used@[ni] == start.used@[i]);
            }
        }
        let n = self.free.len();
        let mut a: usize = addr;
        let mut k: usize = k0;
        loop
            invariant
                k < n,
                n == self.free@.len(),
                n < 64,
                blk((n - 1) as nat) <= self.size,
                self.size == old(self).size,
                self.used@ == start.used@.remove(j as int),
                self.live_map@ == old(self).live_map@.remove(addr as nat),
                self.map_ok(),
                self.blocks_ok(),
                self.clear_of(a as nat, blk(k as nat)),
                a + blk(k as nat) <= self.size,
            decreases n - k,
        {
            if k + 1 >= n {
                break;
            }
            proof {
                lemma_blk_mono(k as nat, (n - 1) as nat);
            }
            let s = order_size(k);
            let buddy = if (a / s) % 2 == 0 {
                if a <= usize::MAX - s {
                    a + s
                } else {
                    break;
                }
            } else {
                if a >= s {
                    a - s
                } else {
                    break;
                }
            };
            let len = self.free[k].len();
            let mut i: usize = 0;
            while i < len && self.free[k][i] != buddy
                invariant
                    i <= len,
                    k < self.free@.len(),
                    len == self.free@[k as int]@.len(),
                decreases len - i,
            {
                i = i + 1;
            }
            if i == len {
                break;
            }
            let ghost before = *self;
            let b = take_free(&mut self.free, k, i);
            proof {
                Self::lemma_take_free(before, *self, k as int, i as int);
                Self::lemma_map_frame(before, *self);
                lemma_blk_mono((k + 1) as nat, (n - 1) as nat);
                if a < b {
                    Self::lemma_clear_union(*self, a as nat, b as nat, s as nat);
                } else {
                    Self::lemma_clear_union(*self, b as nat, a as nat, s as nat);
                }
            }
            if b < a {
                a = b;
            }
            k = k + 1;
        }
        let ghost before = *self;
        push_free(&mut self.free, k, a);
        proof {
            Self::lemma_push_free(before, *self, k as int, a as nat);
            Self::lemma_map_frame(before, *self);
        }
    }
}

} // verus!
