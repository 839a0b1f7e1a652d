//! Chunk contents: a section is a dense, fixed-volume array of optional
//! block data; a chunk is a vertical stack of up to sixteen sections.
use vstd::prelude::*;
use vstd::assert_sets_equal;

use crate::blocks::BlockDataInfo;
use crate::positions::{BlockPosition, ChunkBlockPosition};
use crate::{SECTION_VOLUME, VERTICAL_SECTIONS};

verus! {

/// Number of occupied (non-empty) slots in a prefix-closed model of a section.
pub open spec fn occupied_count(s: Seq<Option<BlockDataInfo>>) -> int
    decreases s.len(),
{
    if s.len() == 0 {
        0
    } else {
        occupied_count(s.drop_last()) + if s.last() is Some {
            1int
        } else {
            0int
        }
    }
}

/// The set of slot indices that hold a block.
pub open spec fn occupied_slots(s: Seq<Option<BlockDataInfo>>) -> Set<int> {
    Set::new(|i: int| 0 <= i < s.len() && s[i] is Some)
}

/// `occupied_count` equals the number of indices whose slot holds a block.
pub proof fn lemma_occupied_count_is_card(s: Seq<Option<BlockDataInfo>>)
    ensures
        occupied_slots(s).finite(),
        occupied_count(s) == occupied_slots(s).len(),
    decreases s.len(),
{
    if s.len() == 0 {
        assert_sets_equal!(occupied_slots(s), Set::empty());
    } else {
        let prefix = s.drop_last();
        lemma_occupied_count_is_card(prefix);
        if s.last() is Some {
            assert_sets_equal!(occupied_slots(s), occupied_slots(prefix).insert(s.len() - 1));
        } else {
            assert_sets_equal!(occupied_slots(s), occupied_slots(prefix));
        }
    }
}

proof fn lemma_occupied_count_take_step(s: Seq<Option<BlockDataInfo>>, i: int)
    requires
        0 <= i < s.len(),
    ensures
        occupied_count(s.take(i + 1)) == occupied_count(s.take(i)) + if s[i] is Some {
            1int
        } else {
            0int
        },
{
    assert(s.take(i + 1).drop_last() =~= s.take(i));
    assert(s.take(i + 1).last() == s[i]);
}

/// A dense vector of exactly `SECTION_VOLUME` optional block data entries.
#[derive(Clone, Debug)]
pub struct ChunkSectionData {
    pub data: Vec<Option<BlockDataInfo>>,
}

impl ChunkSectionData {
    /// The slot model: one optional block datum per linear index.
    pub open spec fn slots(self) -> Seq<Option<BlockDataInfo>> {
        self.data@
    }

    pub open spec fn wf(self) -> bool {
        self.slots().len() == SECTION_VOLUME
    }

    /// Overwrites the slot at `pos`, dropping any previous value.
    pub fn change(&mut self, pos: &ChunkBlockPosition, block: Option<BlockDataInfo>)
        requires
            old(self).wf(),
            pos.wf(),
        ensures
            final(self).wf(),
            final(self).slots() == old(self).slots().update(pos.spec_linearize(), block),
    {
        let idx = pos.linearize() as usize;
        self.data.set(idx, block);
    }

    /// Writes `block` at `pos` and returns the displaced occupant.
    pub fn insert(&mut self, pos: &ChunkBlockPosition, block: BlockDataInfo) -> (r: Option<
        BlockDataInfo,
    >)
        requires
            old(self).wf(),
            pos.wf(),
        ensures
            final(self).wf(),
            r == old(self).slots()[pos.spec_linearize()],
            final(self).slots() == old(self).slots().update(pos.spec_linearize(), Some(block)),
    {
        let idx = pos.linearize() as usize;
        let old_value = self.data[idx];
        self.data.set(idx, Some(block));
        old_value
    }

    /// Reads the slot at `pos`.
    pub fn get(&self, pos: &ChunkBlockPosition) -> (r: Option<&BlockDataInfo>)
        requires
            self.wf(),
            pos.wf(),
        ensures
            (r is Some) == (self.slots()[pos.spec_linearize()] is Some),
            r matches Some(b) ==> self.slots()[pos.spec_linearize()] == Some(*b),
    {
        let idx = pos.linearize() as usize;
        self.data[idx].as_ref()
    }

    /// The occupied slots as `(linear index, block)` pairs in ascending
    /// index order.
    pub fn iter(&self) -> (r: Vec<(usize, BlockDataInfo)>)
        requires
            self.wf(),
        ensures
            r@.len() == occupied_count(self.slots()),
            forall|k: int|
                0 <= k < r@.len() ==> #[trigger] r@[k].0 < SECTION_VOLUME && self.slots()[
                    r@[k].0 as int
                ] == Some(r@[k].1),
            forall|k1: int, k2: int| 0 <= k1 < k2 < r@.len() ==> r@[k1].0 < r@[k2].0,
            forall|i: int|
                0 <= i < SECTION_VOLUME && self.slots()[i] is Some ==> exists|k: int|
                    0 <= k < r@.len() && #[trigger] r@[k].0 == i,
    {
        let mut out: Vec<(usize, BlockDataInfo)> = Vec::new();
        let mut i: usize = 0;
        while i < SECTION_VOLUME
            invariant
                self.wf(),
                i <= SECTION_VOLUME,
                out@.len() == occupied_count(self.slots().take(i as int)),
                forall|k: int|
                    0 <= k < out@.len() ==> #[trigger] out@[k].0 < i && self.slots()[
                        out@[k].0 as int
                    ] == Some(out@[k].1),
                forall|k1: int, k2: int| 0 <= k1 < k2 < out@.len() ==> out@[k1].0 < out@[k2].0,
                forall|j: int|
                    0 <= j < i && self.slots()[j] is Some ==> exists|k: int|
                        0 <= k < out@.len() && #[trigger] out@[k].0 == j,
            decreases SECTION_VOLUME - i,
        {
            proof {
                lemma_occupied_count_take_step(self.slots(), i as int);
            }
            let ghost out0 = out@;
            if let Some(b) = self.data[i] {
                out.push((i, b));
            }
            proof {
                assert forall|j: int| 0 <= j < i + 1 && self.slots()[j] is Some implies exists|
                    k: int,
                |
                    0 <= k < out@.len() && #[trigger] out@[k].0 == j by {
                    if j < i {
                        let k0 = choose|k: int| 0 <= k < out0.len() && #[trigger] out0[k].0 == j;
                        assert(out@[k0].0 == j);
                    } else {
                        assert(out@[out@.len() - 1].0 == j);
                    }
                };
            }
            i = i + 1;
        }
        proof {
            assert(self.slots().take(SECTION_VOLUME as int) =~= self.slots());
        }
        out
    }

    /// Count of occupied slots.
    pub fn len(&self) -> (r: usize)
        requires
            self.wf(),
        ensures
            r == occupied_count(self.slots()),
    {
        let mut n: usize = 0;
        let mut i: usize = 0;
        while i < SECTION_VOLUME
            invariant
                self.wf(),
                i <= SECTION_VOLUME,
                n <= i,
                n == occupied_count(self.slots().take(i as int)),
            decreases SECTION_VOLUME - i,
        {
            proof {
                lemma_occupied_count_take_step(self.slots(), i as int);
            }
            if self.data[i].is_some() {
                n = n + 1;
            }
            i = i + 1;
        }
        proof {
            assert(self.slots().take(SECTION_VOLUME as int) =~= self.slots());
        }
        n
    }
}

impl Default for ChunkSectionData {
    /// A fresh section: every slot addressable and empty.
    fn default() -> (r: Self)
        ensures
            r.wf(),
            forall|i: int| 0 <= i < SECTION_VOLUME ==> r.slots()[i] is None,
    {
        let mut data: Vec<Option<BlockDataInfo>> = Vec::new();
        let mut i: usize = 0;
        while i < SECTION_VOLUME
            invariant
                i <= SECTION_VOLUME,
                data@.len() == i,
                forall|j: int| 0 <= j < i ==> data@[j] is None,
            decreases SECTION_VOLUME - i,
        {
            data.push(None);
            i = i + 1;
        }
        ChunkSectionData { data }
    }
}

/// After `change(p, b)` the slot read back at `p` is exactly `b`; every
/// other slot is unchanged.
pub proof fn lemma_change_then_get(
    slots: Seq<Option<BlockDataInfo>>,
    p: ChunkBlockPosition,
    q: ChunkBlockPosition,
    b: Option<BlockDataInfo>,
)
    requires
        slots.len() == SECTION_VOLUME,
        p.wf(),
        q.wf(),
    ensures
        slots.update(p.spec_linearize(), b)[p.spec_linearize()] == b,
        q != p ==> slots.update(p.spec_linearize(), b)[q.spec_linearize()] == slots[
            q.spec_linearize()
        ],
{
    if q != p {
        if q.spec_linearize() == p.spec_linearize() {
            crate::positions::lemma_linearize_injective(p, q);
        }
    }
}

/// `insert(p, b)` displaces exactly the previous occupant of `p`: it returns
/// the old slot value and leaves `Some(b)` there, as `change` would.
pub proof fn lemma_insert_semantics(
    slots: Seq<Option<BlockDataInfo>>,
    p: ChunkBlockPosition,
    b: BlockDataInfo,
)
    requires
        slots.len() == SECTION_VOLUME,
        p.wf(),
    ensures
        slots.update(p.spec_linearize(), Some(b))[p.spec_linearize()] == Some(b),
{
}

/// An ordered stack of chunk sections.
#[derive(Clone, Debug)]
pub struct ChunkData {
    pub data: Vec<ChunkSectionData>,
}

/// Well-formedness of a chunk model: at most `VERTICAL_SECTIONS` sections,
/// each of exactly `SECTION_VOLUME` slots.
pub open spec fn sections_wf(ss: Seq<Seq<Option<BlockDataInfo>>>) -> bool {
    ss.len() <= VERTICAL_SECTIONS && forall|i: int|
        0 <= i < ss.len() ==> #[trigger] ss[i].len() == SECTION_VOLUME
}

impl ChunkData {
    /// The section models, bottom section first.
    pub open spec fn sections(self) -> Seq<Seq<Option<BlockDataInfo>>> {
        self.data@.map_values(|s: ChunkSectionData| s.slots())
    }

    pub open spec fn wf(self) -> bool {
        sections_wf(self.sections())
    }

    /// Overwrites one block slot of section `section`. Writing to a section
    /// that does not exist is a programming error and is excluded here: the
    /// in-memory chunk would otherwise be corrupt.
    pub fn change_block(
        &mut self,
        section: u32,
        pos: &ChunkBlockPosition,
        block: Option<BlockDataInfo>,
    )
        requires
            old(self).wf(),
            section < old(self).sections().len(),
            pos.wf(),
        ensures
            final(self).wf(),
            final(self).sections() == old(self).sections().update(
                section as int,
                old(self).sections()[section as int].update(pos.spec_linearize(), block),
            ),
    {
        let idx = section as usize;
        proof {
            assert(old(self).sections()[idx as int] == old(self).data@[idx as int].slots());
        }
        let section_data = &mut self.data[idx];
        section_data.change(pos, block);
        proof {
            assert(final(self).sections() =~= old(self).sections().update(
                section as int,
                old(self).sections()[section as int].update(pos.spec_linearize(), block),
            ));
        }
    }

    /// The section at `index`, if it exists.
    pub fn get(&self, index: usize) -> (r: Option<&ChunkSectionData>)
        ensures
            (r is Some) == (index < self.sections().len()),
            r matches Some(s) ==> s.slots() == self.sections()[index as int],
    {
        if index < self.data.len() {
            Some(&self.data[index])
        } else {
            None
        }
    }

    /// Number of sections currently in the chunk.
    pub fn len(&self) -> (r: usize)
        ensures
            r == self.sections().len(),
    {
        self.data.len()
    }

    /// The block at a world position inside this chunk column, if any.
    pub fn get_block_info(&self, block_position: &BlockPosition) -> (r: Option<BlockDataInfo>)
        requires
            self.wf(),
            0 <= block_position.spec_y() < 256,
            block_position.spec_y() / 16 < self.sections().len(),
        ensures
            ({
                let sec = block_position.spec_y() / 16;
                let local_x = crate::positions::pos_mod(block_position.spec_x() as int, 16);
                let local_y = crate::positions::pos_mod(block_position.spec_y() as int, 16);
                let local_z = crate::positions::pos_mod(block_position.spec_z() as int, 16);
                r == self.sections()[sec as int][(local_y * 16 + local_z) * 16 + local_x]
            }),
    {
        let (section, chunk_block_position) = block_position.get_block_position();
        proof {
            assert(self.sections()[section as int] == self.data@[section as int].slots());
        }
        match self.data[section as usize].get(&chunk_block_position) {
            Some(b) => Some(*b),
            None => None,
        }
    }

    /// Appends a section. A chunk already holding `VERTICAL_SECTIONS`
    /// sections cannot grow: that write is a programming error and is
    /// excluded here.
    pub fn push_section(&mut self, data: ChunkSectionData)
        requires
            old(self).wf(),
            old(self).sections().len() < VERTICAL_SECTIONS,
            data.wf(),
        ensures
            final(self).wf(),
            final(self).sections() == old(self).sections().push(data.slots()),
    {
        self.data.push(data);
        proof {
            assert(final(self).sections() =~= old(self).sections().push(data.slots()));
        }
    }
}

impl Default for ChunkData {
    /// An empty chunk with no sections.
    fn default() -> (r: Self)
        ensures
            r.wf(),
            r.sections() == Seq::<Seq<Option<BlockDataInfo>>>::empty(),
    {
        let r = ChunkData { data: Vec::new() };
        proof {
            assert(r.sections() =~= Seq::<Seq<Option<BlockDataInfo>>>::empty());
        }
        r
    }
}

} // verus!
