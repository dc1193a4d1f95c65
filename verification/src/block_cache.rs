use vstd::prelude::*;
use crate::instr::Instr;
use crate::semantics::{block_bounds, cache_ok, RAM_SIZE};

verus! {

/// The compiled blocks, one slot per RAM address; a block in slot `p`
/// starts at `p`. Its methods keep `cache_ok`.
pub struct BlockCache {
    slots: Vec<Option<Vec<Instr>>>,
}

impl View for BlockCache {
    type V = Seq<Option<Seq<Instr>>>;

    closed spec fn view(&self) -> Seq<Option<Seq<Instr>>> {
        slots_view(self.slots@)
    }
}

/// The blocks that the slots hold.
spec fn slots_view(slots: Seq<Option<Vec<Instr>>>) -> Seq<Option<Seq<Instr>>> {
    Seq::new(
        slots.len(),
        |p: int|
            match slots[p] {
                Some(b) => Some(b@),
                None => None,
            },
    )
}

impl BlockCache {
    /// A cache with every slot empty.
    pub fn new() -> (c: BlockCache)
        ensures
            cache_ok(c@),
            forall|p: int| 0 <= p < RAM_SIZE ==> #[trigger] c@[p] is None,
    {
        let mut slots: Vec<Option<Vec<Instr>>> = Vec::new();
        while slots.len() < RAM_SIZE
            invariant
                slots@.len() <= RAM_SIZE,
                forall|p: int| 0 <= p < slots@.len() ==> #[trigger] slots@[p] is None,
            decreases RAM_SIZE - slots@.len(),
        {
            slots.push(None);
        }
        BlockCache { slots }
    }

    /// Whether a block is cached at `p`.
    pub fn is_cached(&self, p: usize) -> (r: bool)
        requires
            cache_ok(self@),
            p < RAM_SIZE,
        ensures
            r == self@[p as int] is Some,
            self@.len() == RAM_SIZE,
    {
        self.slots[p].is_some()
    }

    /// The length of the block cached at `p`.
    pub fn block_len(&self, p: usize) -> (r: usize)
        requires
            cache_ok(self@),
            p < RAM_SIZE,
            self@[p as int] is Some,
        ensures
            r == self@[p as int]->0.len(),
            block_bounds(p as int, self@[p as int]->0),
    {
        match &self.slots[p] {
            Some(b) => b.len(),
            None => 0,
        }
    }

    /// The `k`-th instruction of the block cached at `p`.
    pub fn instr(&self, p: usize, k: usize) -> (r: Instr)
        requires
            cache_ok(self@),
            p < RAM_SIZE,
            self@[p as int] is Some,
            k < self@[p as int]->0.len(),
        ensures
            r == self@[p as int]->0[k as int],
    {
        match &self.slots[p] {
            Some(b) => b[k],
            None => Instr::Unknown,
        }
    }

    /// Caches `blk` at `p`.
    pub fn insert(&mut self, p: usize, blk: Vec<Instr>)
        requires
            cache_ok(old(self)@),
            p < RAM_SIZE,
            block_bounds(p as int, blk@),
        ensures
            final(self)@ == old(self)@.update(p as int, Some(blk@)),
            cache_ok(final(self)@),
    {
        proof {
            let want = old(self)@.update(p as int, Some(blk@));
            assert(slots_view(self.slots@.update(p as int, Some(blk))) =~= want);
            assert forall|q: int|
                0 <= q < RAM_SIZE && (#[trigger] want[q]) is Some implies block_bounds(
                q,
                want[q]->0,
            ) by {
                if q != p {
                    assert(want[q] == old(self)@[q]);
                }
            }
        }
        self.slots.set(p, Some(blk));
        assert(self@ =~= old(self)@.update(p as int, Some(blk@)));
    }
}

} // verus!
