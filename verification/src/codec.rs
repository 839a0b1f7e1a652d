//! The chunk binary codec: a deterministic, size-stable serialization of a
//! chunk's sections. The layout is part of the on-disk contract:
//!
//! - a `u64` little-endian count of sections,
//! - per section: a `u64` little-endian slot count (always 4096), then each
//!   slot in linear-index order,
//! - per slot: tag byte `0` for an empty slot, or `1` followed by the block
//!   id as `u16` little-endian, the optional face (tag byte, then the face
//!   number as `u32` little-endian), and the optional color (tag byte, then
//!   the color byte).
use vstd::prelude::*;
use vstd::bytes::{
    spec_u16_to_le_bytes, spec_u16_from_le_bytes, lemma_auto_spec_u16_to_from_le_bytes,
    spec_u32_to_le_bytes, spec_u32_from_le_bytes, lemma_auto_spec_u32_to_from_le_bytes,
    spec_u64_to_le_bytes, spec_u64_from_le_bytes, lemma_auto_spec_u64_to_from_le_bytes,
};

use crate::blocks::{BlockDataInfo, BlockFace};
use crate::{SECTION_VOLUME, VERTICAL_SECTIONS};

verus! {

/// The face encoded by a face number, if the number is in range.
pub open spec fn face_from_index(v: u32) -> Option<BlockFace> {
    if v == 0 {
        Some(BlockFace::Down)
    } else if v == 1 {
        Some(BlockFace::Up)
    } else if v == 2 {
        Some(BlockFace::North)
    } else if v == 3 {
        Some(BlockFace::South)
    } else if v == 4 {
        Some(BlockFace::West)
    } else if v == 5 {
        Some(BlockFace::East)
    } else {
        None
    }
}

pub open spec fn spec_encode_face(f: Option<BlockFace>) -> Seq<u8> {
    match f {
        None => seq![0u8],
        Some(face) => seq![1u8] + spec_u32_to_le_bytes(face.spec_index() as u32),
    }
}

pub open spec fn spec_encode_color(c: Option<u8>) -> Seq<u8> {
    match c {
        None => seq![0u8],
        Some(v) => seq![1u8, v],
    }
}

pub open spec fn spec_encode_slot(o: Option<BlockDataInfo>) -> Seq<u8> {
    match o {
        None => seq![0u8],
        Some(b) => seq![1u8] + spec_u16_to_le_bytes(b.id) + spec_encode_face(b.face)
            + spec_encode_color(b.color),
    }
}

/// Concatenated encoding of the first slots of a section model.
pub open spec fn spec_encode_slots(s: Seq<Option<BlockDataInfo>>) -> Seq<u8>
    decreases s.len(),
{
    if s.len() == 0 {
        Seq::empty()
    } else {
        spec_encode_slots(s.drop_last()) + spec_encode_slot(s.last())
    }
}

pub open spec fn spec_encode_section(s: Seq<Option<BlockDataInfo>>) -> Seq<u8> {
    spec_u64_to_le_bytes(SECTION_VOLUME as u64) + spec_encode_slots(s)
}

pub open spec fn spec_encode_sections(ss: Seq<Seq<Option<BlockDataInfo>>>) -> Seq<u8>
    decreases ss.len(),
{
    if ss.len() == 0 {
        Seq::empty()
    } else {
        spec_encode_sections(ss.drop_last()) + spec_encode_section(ss.last())
    }
}

/// The full chunk encoding: section count, then each section in order.
pub open spec fn spec_encode_chunk(ss: Seq<Seq<Option<BlockDataInfo>>>) -> Seq<u8> {
    spec_u64_to_le_bytes(ss.len() as u64) + spec_encode_sections(ss)
}

/// `bytes` holds `s` starting at position `i`.
pub open spec fn begins_at(bytes: Seq<u8>, i: int, s: Seq<u8>) -> bool {
    0 <= i && i + s.len() <= bytes.len() && bytes.subrange(i, i + s.len()) == s
}

pub open spec fn spec_decode_face(bytes: Seq<u8>, i: int) -> Option<(Option<BlockFace>, int)> {
    if 0 <= i < bytes.len() {
        if bytes[i] == 0 {
            Some((None, i + 1))
        } else if bytes[i] == 1 && i + 5 <= bytes.len() {
            match face_from_index(spec_u32_from_le_bytes(bytes.subrange(i + 1, i + 5))) {
                Some(f) => Some((Some(f), i + 5)),
                None => None,
            }
        } else {
            None
        }
    } else {
        None
    }
}

pub open spec fn spec_decode_color(bytes: Seq<u8>, i: int) -> Option<(Option<u8>, int)> {
    if 0 <= i < bytes.len() {
        if bytes[i] == 0 {
            Some((None, i + 1))
        } else if bytes[i] == 1 && i + 2 <= bytes.len() {
            Some((Some(bytes[i + 1]), i + 2))
        } else {
            None
        }
    } else {
        None
    }
}

pub open spec fn spec_decode_slot(bytes: Seq<u8>, i: int) -> Option<(Option<BlockDataInfo>, int)> {
    if 0 <= i < bytes.len() {
        if bytes[i] == 0 {
            Some((None, i + 1))
        } else if bytes[i] == 1 && i + 3 <= bytes.len() {
            let id = spec_u16_from_le_bytes(bytes.subrange(i + 1, i + 3));
            match spec_decode_face(bytes, i + 3) {
                Some((face, j)) => match spec_decode_color(bytes, j) {
                    Some((color, j2)) => Some((Some(BlockDataInfo { id, face, color }), j2)),
                    None => None,
                },
                None => None,
            }
        } else {
            None
        }
    } else {
        None
    }
}

/// Decodes `k` slots starting at `i`, returning them with the position after
/// the last one.
pub open spec fn spec_decode_slots(bytes: Seq<u8>, i: int, k: nat) -> Option<
    (Seq<Option<BlockDataInfo>>, int),
>
    decreases k,
{
    if k == 0 {
        Some((Seq::empty(), i))
    } else {
        match spec_decode_slots(bytes, i, (k - 1) as nat) {
            Some((s, j)) => match spec_decode_slot(bytes, j) {
                Some((b, j2)) => Some((s.push(b), j2)),
                None => None,
            },
            None => None,
        }
    }
}

pub open spec fn spec_decode_section(bytes: Seq<u8>, i: int) -> Option<
    (Seq<Option<BlockDataInfo>>, int),
> {
    if 0 <= i && i + 8 <= bytes.len() && spec_u64_from_le_bytes(bytes.subrange(i, i + 8))
        == SECTION_VOLUME as u64 {
        spec_decode_slots(bytes, i + 8, SECTION_VOLUME as nat)
    } else {
        None
    }
}

pub open spec fn spec_decode_sections(bytes: Seq<u8>, i: int, n: nat) -> Option<
    (Seq<Seq<Option<BlockDataInfo>>>, int),
>
    decreases n,
{
    if n == 0 {
        Some((Seq::empty(), i))
    } else {
        match spec_decode_sections(bytes, i, (n - 1) as nat) {
            Some((ss, j)) => match spec_decode_section(bytes, j) {
                Some((s, j2)) => Some((ss.push(s), j2)),
                None => None,
            },
            None => None,
        }
    }
}

/// Decodes a whole chunk: the section count must not exceed
/// `VERTICAL_SECTIONS` and the input must be consumed exactly.
pub open spec fn spec_decode_chunk(bytes: Seq<u8>) -> Option<Seq<Seq<Option<BlockDataInfo>>>> {
    if bytes.len() >= 8 {
        let n = spec_u64_from_le_bytes(bytes.subrange(0, 8));
        if n <= VERTICAL_SECTIONS as u64 {
            match spec_decode_sections(bytes, 8, n as nat) {
                Some((ss, j)) => if j == bytes.len() {
                    Some(ss)
                } else {
                    None
                },
                None => None,
            }
        } else {
            None
        }
    } else {
        None
    }
}

pub(crate) proof fn lemma_begins_at_split(bytes: Seq<u8>, i: int, a: Seq<u8>, b: Seq<u8>)
    requires
        begins_at(bytes, i, a + b),
    ensures
        begins_at(bytes, i, a),
        begins_at(bytes, i + a.len(), b),
{
    let ab = a + b;
    assert forall|t: int| 0 <= t < a.len() implies bytes[i + t] == a[t] by {
        assert(bytes.subrange(i, i + ab.len())[t] == ab[t]);
    };
    assert forall|t: int| 0 <= t < b.len() implies bytes[i + a.len() + t] == b[t] by {
        assert(bytes.subrange(i, i + ab.len())[a.len() + t] == ab[a.len() + t]);
    };
    assert(bytes.subrange(i, i + a.len()) =~= a);
    assert(bytes.subrange(i + a.len(), i + a.len() + b.len()) =~= b);
}

pub(crate) proof fn lemma_begins_at_index(bytes: Seq<u8>, i: int, s: Seq<u8>, t: int)
    requires
        begins_at(bytes, i, s),
        0 <= t < s.len(),
    ensures
        bytes[i + t] == s[t],
{
    assert(bytes.subrange(i, i + s.len())[t] == s[t]);
}

proof fn lemma_decode_encode_face(bytes: Seq<u8>, i: int, f: Option<BlockFace>)
    requires
        begins_at(bytes, i, spec_encode_face(f)),
    ensures
        spec_decode_face(bytes, i) == Some((f, i + spec_encode_face(f).len())),
{
    lemma_auto_spec_u32_to_from_le_bytes();
    match f {
        None => {
            lemma_begins_at_index(bytes, i, spec_encode_face(f), 0);
        },
        Some(face) => {
            let enc = spec_encode_face(f);
            lemma_begins_at_index(bytes, i, enc, 0);
            assert(bytes[i] == 1);
            let idx_bytes = spec_u32_to_le_bytes(face.spec_index() as u32);
            lemma_begins_at_split(bytes, i, seq![1u8], idx_bytes);
            assert(bytes.subrange(i + 1, i + 5) =~= idx_bytes);
            assert(spec_u32_from_le_bytes(idx_bytes) == face.spec_index() as u32);
        },
    }
}

proof fn lemma_decode_encode_color(bytes: Seq<u8>, i: int, c: Option<u8>)
    requires
        begins_at(bytes, i, spec_encode_color(c)),
    ensures
        spec_decode_color(bytes, i) == Some((c, i + spec_encode_color(c).len())),
{
    match c {
        None => {
            lemma_begins_at_index(bytes, i, spec_encode_color(c), 0);
        },
        Some(v) => {
            lemma_begins_at_index(bytes, i, spec_encode_color(c), 0);
            lemma_begins_at_index(bytes, i, spec_encode_color(c), 1);
        },
    }
}

proof fn lemma_decode_encode_slot(bytes: Seq<u8>, i: int, o: Option<BlockDataInfo>)
    requires
        begins_at(bytes, i, spec_encode_slot(o)),
    ensures
        spec_decode_slot(bytes, i) == Some((o, i + spec_encode_slot(o).len())),
{
    lemma_auto_spec_u16_to_from_le_bytes();
    match o {
        None => {
            lemma_begins_at_index(bytes, i, spec_encode_slot(o), 0);
        },
        Some(b) => {
            let enc = spec_encode_slot(o);
            lemma_begins_at_index(bytes, i, enc, 0);
            assert(bytes[i] == 1);
            let id_bytes = spec_u16_to_le_bytes(b.id);
            let face_enc = spec_encode_face(b.face);
            let color_enc = spec_encode_color(b.color);
            assert(enc =~= (seq![1u8] + id_bytes) + (face_enc + color_enc));
            lemma_begins_at_split(bytes, i, seq![1u8] + id_bytes, face_enc + color_enc);
            lemma_begins_at_split(bytes, i, seq![1u8], id_bytes);
            assert(bytes.subrange(i + 1, i + 3) =~= id_bytes);
            assert(spec_u16_from_le_bytes(bytes.subrange(i + 1, i + 3)) == b.id);
            let fi = i + 3;
            lemma_begins_at_split(bytes, fi, face_enc, color_enc);
            lemma_decode_encode_face(bytes, fi, b.face);
            lemma_decode_encode_color(bytes, fi + face_enc.len(), b.color);
        },
    }
}

proof fn lemma_encode_slots_take_step(s: Seq<Option<BlockDataInfo>>, k: int)
    requires
        0 <= k < s.len(),
    ensures
        spec_encode_slots(s.take(k + 1)) == spec_encode_slots(s.take(k)) + spec_encode_slot(s[k]),
{
    assert(s.take(k + 1).drop_last() =~= s.take(k));
    assert(s.take(k + 1).last() == s[k]);
}

proof fn lemma_decode_encode_slots(bytes: Seq<u8>, i: int, s: Seq<Option<BlockDataInfo>>, k: nat)
    requires
        k <= s.len(),
        begins_at(bytes, i, spec_encode_slots(s.take(k as int))),
    ensures
        spec_decode_slots(bytes, i, k) == Some(
            (s.take(k as int), i + spec_encode_slots(s.take(k as int)).len()),
        ),
    decreases k,
{
    if k == 0 {
        assert(s.take(0) =~= Seq::<Option<BlockDataInfo>>::empty());
    } else {
        let prev = s.take(k as int - 1);
        lemma_encode_slots_take_step(s, k as int - 1);
        lemma_begins_at_split(bytes, i, spec_encode_slots(prev), spec_encode_slot(s[k - 1]));
        lemma_decode_encode_slots(bytes, i, s, (k - 1) as nat);
        let j = i + spec_encode_slots(prev).len();
        lemma_decode_encode_slot(bytes, j, s[k - 1]);
        assert(prev.push(s[k - 1]) =~= s.take(k as int));
    }
}

proof fn lemma_decode_encode_section(bytes: Seq<u8>, i: int, s: Seq<Option<BlockDataInfo>>)
    requires
        s.len() == SECTION_VOLUME,
        begins_at(bytes, i, spec_encode_section(s)),
    ensures
        spec_decode_section(bytes, i) == Some((s, i + spec_encode_section(s).len())),
{
    lemma_auto_spec_u64_to_from_le_bytes();
    let header = spec_u64_to_le_bytes(SECTION_VOLUME as u64);
    lemma_begins_at_split(bytes, i, header, spec_encode_slots(s));
    assert(bytes.subrange(i, i + 8) =~= header);
    assert(s.take(SECTION_VOLUME as int) =~= s);
    lemma_decode_encode_slots(bytes, i + 8, s, SECTION_VOLUME as nat);
}

proof fn lemma_encode_sections_take_step(ss: Seq<Seq<Option<BlockDataInfo>>>, k: int)
    requires
        0 <= k < ss.len(),
    ensures
        spec_encode_sections(ss.take(k + 1)) == spec_encode_sections(ss.take(k))
            + spec_encode_section(ss[k]),
{
    assert(ss.take(k + 1).drop_last() =~= ss.take(k));
    assert(ss.take(k + 1).last() == ss[k]);
}

proof fn lemma_decode_encode_sections(
    bytes: Seq<u8>,
    i: int,
    ss: Seq<Seq<Option<BlockDataInfo>>>,
    n: nat,
)
    requires
        n <= ss.len(),
        forall|t: int| 0 <= t < ss.len() ==> #[trigger] ss[t].len() == SECTION_VOLUME,
        begins_at(bytes, i, spec_encode_sections(ss.take(n as int))),
    ensures
        spec_decode_sections(bytes, i, n) == Some(
            (ss.take(n as int), i + spec_encode_sections(ss.take(n as int)).len()),
        ),
    decreases n,
{
    if n == 0 {
        assert(ss.take(0) =~= Seq::<Seq<Option<BlockDataInfo>>>::empty());
    } else {
        let prev = ss.take(n as int - 1);
        lemma_encode_sections_take_step(ss, n as int - 1);
        lemma_begins_at_split(
            bytes,
            i,
            spec_encode_sections(prev),
            spec_encode_section(ss[n - 1]),
        );
        lemma_decode_encode_sections(bytes, i, ss, (n - 1) as nat);
        let j = i + spec_encode_sections(prev).len();
        lemma_decode_encode_section(bytes, j, ss[n - 1]);
        assert(prev.push(ss[n - 1]) =~= ss.take(n as int));
    }
}

/// Round trip of the chunk codec at the specification level: decoding an
/// encoded chunk gives back exactly the chunk's sections.
pub proof fn lemma_decode_encode_chunk(ss: Seq<Seq<Option<BlockDataInfo>>>)
    requires
        ss.len() <= VERTICAL_SECTIONS,
        forall|t: int| 0 <= t < ss.len() ==> #[trigger] ss[t].len() == SECTION_VOLUME,
    ensures
        spec_decode_chunk(spec_encode_chunk(ss)) == Some(ss),
{
    lemma_auto_spec_u64_to_from_le_bytes();
    let bytes = spec_encode_chunk(ss);
    let header = spec_u64_to_le_bytes(ss.len() as u64);
    assert(bytes.subrange(0, 8) =~= header);
    assert(ss.take(ss.len() as int) =~= ss);
    assert(bytes.subrange(8, 8 + spec_encode_sections(ss).len() as int) =~= spec_encode_sections(
        ss,
    ));
    lemma_decode_encode_sections(bytes, 8, ss, ss.len());
}

/// Exec mirror of [`face_from_index`]: the stable number of a face.
pub fn face_index(f: BlockFace) -> (r: u32)
    ensures
        r == f.spec_index(),
        face_from_index(r) == Some(f),
{
    match f {
        BlockFace::Down => 0,
        BlockFace::Up => 1,
        BlockFace::North => 2,
        BlockFace::South => 3,
        BlockFace::West => 4,
        BlockFace::East => 5,
    }
}

/// Exec mirror of [`face_from_index`].
fn face_from_index_exec(v: u32) -> (r: Option<BlockFace>)
    ensures
        r == face_from_index(v),
{
    if v == 0 {
        Some(BlockFace::Down)
    } else if v == 1 {
        Some(BlockFace::Up)
    } else if v == 2 {
        Some(BlockFace::North)
    } else if v == 3 {
        Some(BlockFace::South)
    } else if v == 4 {
        Some(BlockFace::West)
    } else if v == 5 {
        Some(BlockFace::East)
    } else {
        None
    }
}

proof fn lemma_slots_none_after(bytes: Seq<u8>, i: int, k: nat, n: nat)
    requires
        k < n,
        spec_decode_slots(bytes, i, k) matches Some(p) ==> spec_decode_slot(bytes, p.1) is None,
    ensures
        spec_decode_slots(bytes, i, n) is None,
    decreases n,
{
    if n - 1 > k {
        lemma_slots_none_after(bytes, i, k, (n - 1) as nat);
    }
}

proof fn lemma_sections_none_after(bytes: Seq<u8>, i: int, k: nat, n: nat)
    requires
        k < n,
        spec_decode_sections(bytes, i, k) matches Some(p) ==> spec_decode_section(bytes, p.1)
            is None,
    ensures
        spec_decode_sections(bytes, i, n) is None,
    decreases n,
{
    if n - 1 > k {
        lemma_sections_none_after(bytes, i, k, (n - 1) as nat);
    }
}

/// Decodes one slot at `pos`, exactly as [`spec_decode_slot`] describes.
fn decode_slot_at(bytes: &Vec<u8>, pos: usize) -> (r: Result<(Option<BlockDataInfo>, usize), ()>)
    ensures
        r matches Ok(p) ==> spec_decode_slot(bytes@, pos as int) == Some((p.0, p.1 as int)) && pos
            < p.1 <= bytes@.len(),
        r is Err ==> spec_decode_slot(bytes@, pos as int) is None,
{
    if pos >= bytes.len() {
        return Err(());
    }
    let tag = bytes[pos];
    if tag == 0 {
        return Ok((None, pos + 1));
    }
    if tag != 1 || bytes.len() - pos < 3 {
        return Err(());
    }
    let id = vstd::bytes::u16_from_le_bytes(
        vstd::slice::slice_subrange(bytes.as_slice(), pos + 1, pos + 3),
    );
    let fpos = pos + 3;
    if fpos >= bytes.len() {
        return Err(());
    }
    let ftag = bytes[fpos];
    let (face, cpos): (Option<BlockFace>, usize) = if ftag == 0 {
        (None, fpos + 1)
    } else if ftag == 1 && bytes.len() - fpos >= 5 {
        let fv = vstd::bytes::u32_from_le_bytes(
            vstd::slice::slice_subrange(bytes.as_slice(), fpos + 1, fpos + 5),
        );
        match face_from_index_exec(fv) {
            Some(f) => (Some(f), fpos + 5),
            None => {
                return Err(());
            },
        }
    } else {
        return Err(());
    };
    if cpos >= bytes.len() {
        return Err(());
    }
    let ctag = bytes[cpos];
    let (color, npos): (Option<u8>, usize) = if ctag == 0 {
        (None, cpos + 1)
    } else if ctag == 1 && bytes.len() - cpos >= 2 {
        (Some(bytes[cpos + 1]), cpos + 2)
    } else {
        return Err(());
    };
    Ok((Some(BlockDataInfo { id, face, color }), npos))
}

/// Decodes one section at `pos`, exactly as [`spec_decode_section`] describes.
fn decode_section_at(bytes: &Vec<u8>, pos: usize) -> (r: Result<
    (crate::chunk_data::ChunkSectionData, usize),
    (),
>)
    ensures
        r matches Ok(p) ==> p.0.wf() && spec_decode_section(bytes@, pos as int) == Some(
            (p.0.slots(), p.1 as int),
        ) && pos <= p.1 <= bytes@.len(),
        r is Err ==> spec_decode_section(bytes@, pos as int) is None,
{
    if bytes.len() < 8 || pos > bytes.len() - 8 {
        return Err(());
    }
    let count = vstd::bytes::u64_from_le_bytes(
        vstd::slice::slice_subrange(bytes.as_slice(), pos, pos + 8),
    );
    if count != SECTION_VOLUME as u64 {
        return Err(());
    }
    let mut slots: Vec<Option<BlockDataInfo>> = Vec::new();
    let mut cur: usize = pos + 8;
    let mut k: usize = 0;
    while k < SECTION_VOLUME
        invariant
            k <= SECTION_VOLUME,
            slots@.len() == k,
            pos as int + 8 <= cur <= bytes@.len(),
            spec_u64_from_le_bytes(bytes@.subrange(pos as int, pos as int + 8))
                == SECTION_VOLUME as u64,
            spec_decode_slots(bytes@, pos as int + 8, k as nat) == Some((slots@, cur as int)),
        decreases SECTION_VOLUME - k,
    {
        match decode_slot_at(bytes, cur) {
            Ok((b, next)) => {
                slots.push(b);
                cur = next;
            },
            Err(()) => {
                proof {
                    lemma_slots_none_after(bytes@, pos as int + 8, k as nat, SECTION_VOLUME as nat);
                }
                return Err(());
            },
        }
        k = k + 1;
    }
    Ok((crate::chunk_data::ChunkSectionData { data: slots }, cur))
}

impl crate::chunk_data::ChunkData {
    /// Serializes the chunk into its deterministic binary form.
    pub fn encode(&self) -> (r: Vec<u8>)
        requires
            self.wf(),
        ensures
            r@ == spec_encode_chunk(self.sections()),
    {
        let n = self.data.len();
        let mut out: Vec<u8> = vstd::bytes::u64_to_le_bytes(n as u64);
        let ghost base = spec_u64_to_le_bytes(n as u64);
        let mut si: usize = 0;
        while si < n
            invariant
                self.wf(),
                n == self.data@.len(),
                si <= n,
                base == spec_u64_to_le_bytes(n as u64),
                out@ == base + spec_encode_sections(self.sections().take(si as int)),
            decreases n - si,
        {
            proof {
                assert(self.sections()[si as int] == self.data@[si as int].slots());
            }
            let ghost section_base = out@;
            let mut header = vstd::bytes::u64_to_le_bytes(SECTION_VOLUME as u64);
            out.append(&mut header);
            let section = &self.data[si];
            let mut i: usize = 0;
            while i < SECTION_VOLUME
                invariant
                    section.wf(),
                    section.slots() == self.sections()[si as int],
                    si < self.sections().len(),
                    i <= SECTION_VOLUME,
                    out@ == section_base + spec_u64_to_le_bytes(SECTION_VOLUME as u64)
                        + spec_encode_slots(section.slots().take(i as int)),
                decreases SECTION_VOLUME - i,
            {
                let ghost slot_base = out@;
                match section.data[i] {
                    None => {
                        out.push(0u8);
                    },
                    Some(b) => {
                        out.push(1u8);
                        let mut id_bytes = vstd::bytes::u16_to_le_bytes(b.id);
                        out.append(&mut id_bytes);
                        match b.face {
                            None => {
                                out.push(0u8);
                            },
                            Some(f) => {
                                out.push(1u8);
                                let mut face_bytes = vstd::bytes::u32_to_le_bytes(face_index(f));
                                out.append(&mut face_bytes);
                            },
                        }
                        match b.color {
                            None => {
                                out.push(0u8);
                            },
                            Some(c) => {
                                out.push(1u8);
                                out.push(c);
                            },
                        }
                    },
                }
                proof {
                    assert(out@ =~= slot_base + spec_encode_slot(section.slots()[i as int]));
                    lemma_encode_slots_take_step(section.slots(), i as int);
                }
                i = i + 1;
            }
            proof {
                assert(section.slots().take(SECTION_VOLUME as int) =~= section.slots());
                lemma_encode_sections_take_step(self.sections(), si as int);
                assert(out@ =~= base + spec_encode_sections(
                    self.sections().take(si as int + 1),
                ));
            }
            si = si + 1;
        }
        proof {
            assert(self.sections().take(n as int) =~= self.sections());
        }
        out
    }

    /// Decodes a chunk from its binary form. Fails on any malformed input:
    /// a bad header, a bad slot tag, a section count above
    /// `VERTICAL_SECTIONS`, or trailing bytes.
    pub fn decode(encoded: Vec<u8>) -> (r: Result<Self, String>)
        ensures
            (r is Ok) == (spec_decode_chunk(encoded@) is Some),
            r matches Ok(c) ==> c.wf() && spec_decode_chunk(encoded@) == Some(c.sections()),
    {
        if encoded.len() < 8 {
            return Err(String::from_str("chunk decode error: input shorter than its header"));
        }
        let n_u64 = vstd::bytes::u64_from_le_bytes(
            vstd::slice::slice_subrange(encoded.as_slice(), 0, 8),
        );
        if n_u64 > VERTICAL_SECTIONS as u64 {
            return Err(String::from_str("chunk decode error: too many sections"));
        }
        let n = n_u64 as usize;
        let mut parsed: Vec<crate::chunk_data::ChunkSectionData> = Vec::new();
        let mut pos: usize = 8;
        let mut k: usize = 0;
        while k < n
            invariant
                k <= n,
                n == n_u64,
                n <= VERTICAL_SECTIONS,
                encoded@.len() >= 8,
                n_u64 == spec_u64_from_le_bytes(encoded@.subrange(0, 8)),
                parsed@.len() == k,
                pos <= encoded@.len(),
                forall|t: int| 0 <= t < k ==> #[trigger] parsed@[t].wf(),
                spec_decode_sections(encoded@, 8, k as nat) == Some(
                    (parsed@.map_values(|s: crate::chunk_data::ChunkSectionData| s.slots()),
                    pos as int),
                ),
            decreases n - k,
        {
            match decode_section_at(&encoded, pos) {
                Ok((section, next)) => {
                    parsed.push(section);
                    pos = next;
                    proof {
                        assert(parsed@.map_values(
                            |s: crate::chunk_data::ChunkSectionData| s.slots(),
                        ) =~= parsed@.drop_last().map_values(
                            |s: crate::chunk_data::ChunkSectionData| s.slots(),
                        ).push(section.slots()));
                    }
                },
                Err(()) => {
                    proof {
                        lemma_sections_none_after(encoded@, 8, k as nat, n as nat);
                    }
                    return Err(String::from_str("chunk decode error: malformed section"));
                },
            }
            k = k + 1;
        }
        if pos != encoded.len() {
            return Err(String::from_str("chunk decode error: trailing bytes"));
        }
        let chunk = crate::chunk_data::ChunkData { data: parsed };
        proof {
            assert(chunk.sections() == parsed@.map_values(
                |s: crate::chunk_data::ChunkSectionData| s.slots(),
            ));
            assert forall|t: int| 0 <= t < chunk.sections().len() implies #[trigger] chunk.sections()[t].len()
                == SECTION_VOLUME by {
                assert(parsed@[t].wf());
            };
        }
        Ok(chunk)
    }
}

} // verus!
