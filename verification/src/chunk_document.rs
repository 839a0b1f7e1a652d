//! Chunks as structured documents, for the plugin envelope: a generator's
//! chunk response crosses the boundary as the JSON text of this document
//! form, and the host reads it back.
//!
//! A chunk document is a map `{"data": [section...]}`; each section is a map
//! `{"data": [slot x 4096]}`; each slot is `null` or a map with the block
//! `id`, the `face` name or `null`, and the `color` byte or `null`.
use vstd::prelude::*;

use crate::blocks::{BlockDataInfo, BlockFace};
use crate::chunk_data::{sections_wf, ChunkData, ChunkSectionData};
use crate::json::spec_dict_get;
use crate::macro_data::{entry_views, macro_view, macro_views, EntryView, MacroEntry, MacroValue,
    MacroView};
use crate::strutil::str_eq;
use crate::{SECTION_VOLUME, VERTICAL_SECTIONS};

verus! {

/// The name of a face in a chunk document.
pub open spec fn spec_face_name(f: BlockFace) -> Seq<char> {
    match f {
        BlockFace::Down => "Down"@,
        BlockFace::Up => "Up"@,
        BlockFace::North => "North"@,
        BlockFace::South => "South"@,
        BlockFace::West => "West"@,
        BlockFace::East => "East"@,
    }
}

/// The face named `s`, if any.
pub open spec fn spec_face_of_name(s: Seq<char>) -> Option<BlockFace> {
    if s == "Down"@ {
        Some(BlockFace::Down)
    } else if s == "Up"@ {
        Some(BlockFace::Up)
    } else if s == "North"@ {
        Some(BlockFace::North)
    } else if s == "South"@ {
        Some(BlockFace::South)
    } else if s == "West"@ {
        Some(BlockFace::West)
    } else if s == "East"@ {
        Some(BlockFace::East)
    } else {
        None
    }
}

/// The document form of one slot.
pub open spec fn spec_slot_tree(o: Option<BlockDataInfo>) -> MacroView {
    match o {
        None => MacroView::Null,
        Some(b) => MacroView::Dict(
            seq![
                EntryView { key: "id"@, value: MacroView::Int(b.id as i64) },
                EntryView {
                    key: "face"@,
                    value: match b.face {
                        None => MacroView::Null,
                        Some(f) => MacroView::Text(spec_face_name(f)),
                    },
                },
                EntryView {
                    key: "color"@,
                    value: match b.color {
                        None => MacroView::Null,
                        Some(c) => MacroView::Int(c as i64),
                    },
                },
            ],
        ),
    }
}

/// The document form of one section.
pub open spec fn spec_section_tree(s: Seq<Option<BlockDataInfo>>) -> MacroView {
    MacroView::Dict(
        seq![
            EntryView {
                key: "data"@,
                value: MacroView::Array(s.map_values(|o: Option<BlockDataInfo>| spec_slot_tree(o))),
            },
        ],
    )
}

/// The document form of a chunk.
pub open spec fn spec_chunk_tree(ss: Seq<Seq<Option<BlockDataInfo>>>) -> MacroView {
    MacroView::Dict(
        seq![
            EntryView {
                key: "data"@,
                value: MacroView::Array(
                    ss.map_values(|s: Seq<Option<BlockDataInfo>>| spec_section_tree(s)),
                ),
            },
        ],
    )
}

/// The slot a document value describes, if it is well-formed.
pub open spec fn spec_slot_of(m: MacroView) -> Option<Option<BlockDataInfo>> {
    match m {
        MacroView::Null => Some(None),
        MacroView::Dict(ms) => match spec_dict_get(ms, "id"@) {
            Some(MacroView::Int(n)) => if 0 <= n <= u16::MAX {
                match spec_face_field(spec_dict_get(ms, "face"@)) {
                    Some(face) => match spec_color_field(spec_dict_get(ms, "color"@)) {
                        Some(color) => Some(Some(BlockDataInfo { id: n as u16, face, color })),
                        None => None,
                    },
                    None => None,
                }
            } else {
                None
            },
            _ => None,
        },
        _ => None,
    }
}

/// The face an optional document field describes: absent or null is no
/// face, a known face name is that face.
pub open spec fn spec_face_field(field: Option<MacroView>) -> Option<Option<BlockFace>> {
    match field {
        None => Some(None),
        Some(MacroView::Null) => Some(None),
        Some(MacroView::Text(name)) => match spec_face_of_name(name) {
            Some(f) => Some(Some(f)),
            None => None,
        },
        _ => None,
    }
}

/// The color an optional document field describes.
pub open spec fn spec_color_field(field: Option<MacroView>) -> Option<Option<u8>> {
    match field {
        None => Some(None),
        Some(MacroView::Null) => Some(None),
        Some(MacroView::Int(n)) => if 0 <= n <= u8::MAX {
            Some(Some(n as u8))
        } else {
            None
        },
        _ => None,
    }
}

/// The slots the first `k` document values describe.
pub open spec fn spec_slots_of(vs: Seq<MacroView>, k: nat) -> Option<Seq<Option<BlockDataInfo>>>
    decreases k,
{
    if k == 0 {
        Some(Seq::empty())
    } else if k > vs.len() {
        None
    } else {
        match spec_slots_of(vs, (k - 1) as nat) {
            Some(acc) => match spec_slot_of(vs[k - 1]) {
                Some(slot) => Some(acc.push(slot)),
                None => None,
            },
            None => None,
        }
    }
}

/// The section a document value describes: a map whose `data` array holds
/// exactly `SECTION_VOLUME` well-formed slots.
pub open spec fn spec_section_of(m: MacroView) -> Option<Seq<Option<BlockDataInfo>>> {
    match m {
        MacroView::Dict(ms) => match spec_dict_get(ms, "data"@) {
            Some(MacroView::Array(slots)) => if slots.len() == SECTION_VOLUME {
                spec_slots_of(slots, SECTION_VOLUME as nat)
            } else {
                None
            },
            _ => None,
        },
        _ => None,
    }
}

/// The sections the first `k` document values describe.
pub open spec fn spec_sections_of(vs: Seq<MacroView>, k: nat) -> Option<
    Seq<Seq<Option<BlockDataInfo>>>,
>
    decreases k,
{
    if k == 0 {
        Some(Seq::empty())
    } else if k > vs.len() {
        None
    } else {
        match spec_sections_of(vs, (k - 1) as nat) {
            Some(acc) => match spec_section_of(vs[k - 1]) {
                Some(s) => Some(acc.push(s)),
                None => None,
            },
            None => None,
        }
    }
}

/// The chunk a document describes: a map whose `data` array holds at most
/// `VERTICAL_SECTIONS` well-formed sections.
pub open spec fn spec_chunk_of_tree(m: MacroView) -> Option<Seq<Seq<Option<BlockDataInfo>>>> {
    match m {
        MacroView::Dict(ms) => match spec_dict_get(ms, "data"@) {
            Some(MacroView::Array(secs)) => if secs.len() <= VERTICAL_SECTIONS {
                spec_sections_of(secs, secs.len())
            } else {
                None
            },
            _ => None,
        },
        _ => None,
    }
}

/// Exec mirror of [`spec_face_name`].
fn face_name(f: BlockFace) -> (r: &'static str)
    ensures
        r@ == spec_face_name(f),
{
    match f {
        BlockFace::Down => "Down",
        BlockFace::Up => "Up",
        BlockFace::North => "North",
        BlockFace::South => "South",
        BlockFace::West => "West",
        BlockFace::East => "East",
    }
}

/// Exec mirror of [`spec_face_of_name`].
fn face_of_name(s: &str) -> (r: Option<BlockFace>)
    ensures
        r == spec_face_of_name(s@),
{
    if str_eq(s, "Down") {
        Some(BlockFace::Down)
    } else if str_eq(s, "Up") {
        Some(BlockFace::Up)
    } else if str_eq(s, "North") {
        Some(BlockFace::North)
    } else if str_eq(s, "South") {
        Some(BlockFace::South)
    } else if str_eq(s, "West") {
        Some(BlockFace::West)
    } else if str_eq(s, "East") {
        Some(BlockFace::East)
    } else {
        None
    }
}

/// The document form of one slot.
fn slot_document(o: &Option<BlockDataInfo>) -> (r: MacroValue)
    ensures
        r@ == spec_slot_tree(*o),
{
    match o {
        None => MacroValue::Null,
        Some(b) => {
            let face_value = match b.face {
                None => MacroValue::Null,
                Some(f) => MacroValue::Text(String::from_str(face_name(f))),
            };
            let color_value = match b.color {
                None => MacroValue::Null,
                Some(c) => MacroValue::Int(c as i64),
            };
            let ghost id_view = EntryView { key: "id"@, value: MacroView::Int(b.id as i64) };
            let ghost face_view = EntryView { key: "face"@, value: face_value@ };
            let ghost color_view = EntryView { key: "color"@, value: color_value@ };
            let mut entries: Vec<MacroEntry> = Vec::new();
            entries.push(
                MacroEntry { key: String::from_str("id"), value: MacroValue::Int(b.id as i64) },
            );
            proof {
                assert(entry_views(Seq::<MacroEntry>::empty()) =~= Seq::<EntryView>::empty());
                assert(entries@.drop_last() =~= Seq::<MacroEntry>::empty());
                assert(entries@.last().key@ == "id"@);
                assert(macro_view(entries@.last().value) == MacroView::Int(b.id as i64));
                assert(entry_views(entries@) == entry_views(entries@.drop_last()).push(
                    EntryView {
                        key: entries@.last().key@,
                        value: macro_view(entries@.last().value),
                    },
                ));
                assert(entry_views(entries@) =~= seq![id_view]);
            }
            let ghost after_id = entries@;
            entries.push(MacroEntry { key: String::from_str("face"), value: face_value });
            proof {
                assert(entries@.drop_last() =~= after_id);
                assert(entries@.last().key@ == "face"@);
                assert(macro_view(entries@.last().value) == face_view.value);
                assert(entry_views(entries@) == entry_views(entries@.drop_last()).push(
                    EntryView {
                        key: entries@.last().key@,
                        value: macro_view(entries@.last().value),
                    },
                ));
                assert(entry_views(entries@) =~= seq![id_view, face_view]);
            }
            let ghost after_face = entries@;
            entries.push(MacroEntry { key: String::from_str("color"), value: color_value });
            let r = MacroValue::Dict(entries);
            proof {
                assert(entries@.drop_last() =~= after_face);
                assert(entries@.last().key@ == "color"@);
                assert(macro_view(entries@.last().value) == color_view.value);
                assert(entry_views(entries@) == entry_views(entries@.drop_last()).push(
                    EntryView {
                        key: entries@.last().key@,
                        value: macro_view(entries@.last().value),
                    },
                ));
                assert(entry_views(entries@) =~= seq![id_view, face_view, color_view]);
                assert(entry_views(entries@) =~= spec_slot_tree(*o)->Dict_0);
            }
            r
        },
    }
}

/// The document a slot value describes; exec mirror of [`spec_slot_of`].
fn slot_of_document(m: &MacroValue) -> (r: Result<Option<BlockDataInfo>, ()>)
    ensures
        (r is Ok) == (spec_slot_of(m@) is Some),
        r matches Ok(slot) ==> spec_slot_of(m@) == Some(slot),
{
    let entries = match m {
        MacroValue::Null => {
            return Ok(None);
        },
        MacroValue::Dict(entries) => entries,
        _ => {
            return Err(());
        },
    };
    let id: u16 = match crate::json::dict_get(entries, "id") {
        Some(MacroValue::Int(n)) => {
            if 0 <= *n && *n <= u16::MAX as i64 {
                *n as u16
            } else {
                return Err(());
            }
        },
        _ => {
            return Err(());
        },
    };
    let face: Option<BlockFace> = match crate::json::dict_get(entries, "face") {
        None => None,
        Some(MacroValue::Null) => None,
        Some(MacroValue::Text(name)) => match face_of_name(name.as_str()) {
            Some(f) => Some(f),
            None => {
                return Err(());
            },
        },
        _ => {
            return Err(());
        },
    };
    let color: Option<u8> = match crate::json::dict_get(entries, "color") {
        None => None,
        Some(MacroValue::Null) => None,
        Some(MacroValue::Int(n)) => {
            if 0 <= *n && *n <= u8::MAX as i64 {
                Some(*n as u8)
            } else {
                return Err(());
            }
        },
        _ => {
            return Err(());
        },
    };
    Ok(Some(BlockDataInfo { id, face, color }))
}

impl ChunkData {
    /// The chunk as a structured document, ready to cross the plugin
    /// boundary as JSON.
    pub fn to_document(&self) -> (r: MacroValue)
        requires
            self.wf(),
        ensures
            r@ == spec_chunk_tree(self.sections()),
    {
        let mut section_docs: Vec<MacroValue> = Vec::new();
        proof {
            assert(macro_views(Seq::<MacroValue>::empty()) =~= Seq::<MacroView>::empty());
            assert(macro_views(section_docs@) =~= Seq::<MacroView>::empty());
        }
        let mut si: usize = 0;
        while si < self.data.len()
            invariant
                self.wf(),
                si <= self.data@.len(),
                macro_views(section_docs@).len() == si,
                forall|t: int|
                    0 <= t < si ==> macro_views(section_docs@)[t] == spec_section_tree(
                        #[trigger] self.sections()[t],
                    ),
            decreases self.data@.len() - si,
        {
            proof {
                assert(self.sections()[si as int] == self.data@[si as int].slots());
                crate::macro_data::lemma_macro_views_len(section_docs@);
            }
            let section = &self.data[si];
            let mut slot_docs: Vec<MacroValue> = Vec::new();
            proof {
                assert(macro_views(Seq::<MacroValue>::empty()) =~= Seq::<MacroView>::empty());
                assert(macro_views(slot_docs@) =~= Seq::<MacroView>::empty());
            }
            let mut i: usize = 0;
            while i < SECTION_VOLUME
                invariant
                    section.wf(),
                    i <= SECTION_VOLUME,
                    macro_views(slot_docs@).len() == i,
                    forall|t: int|
                        0 <= t < i ==> macro_views(slot_docs@)[t] == spec_slot_tree(
                            #[trigger] section.slots()[t],
                        ),
                decreases SECTION_VOLUME - i,
            {
                let doc = slot_document(&section.data[i]);
                let ghost docs0 = slot_docs@;
                slot_docs.push(doc);
                proof {
                    assert(slot_docs@.drop_last() =~= docs0);
                    assert(macro_views(slot_docs@) == macro_views(docs0).push(doc@));
                    crate::macro_data::lemma_macro_views_len(slot_docs@);
                    assert forall|t: int|
                        0 <= t < i + 1 implies macro_views(slot_docs@)[t] == spec_slot_tree(
                        #[trigger] section.slots()[t],
                    ) by {
                        if t < i {
                            assert(macro_views(slot_docs@)[t] == macro_views(docs0)[t]);
                        }
                    };
                }
                i = i + 1;
            }
            let ghost slot_docs_view = slot_docs@;
            let mut section_entries: Vec<MacroEntry> = Vec::new();
            section_entries.push(
                MacroEntry { key: String::from_str("data"), value: MacroValue::Array(slot_docs) },
            );
            let section_doc = MacroValue::Dict(section_entries);
            proof {
                assert(macro_views(slot_docs_view) =~= section.slots().map_values(
                    |o: Option<BlockDataInfo>| spec_slot_tree(o),
                ));
                assert(entry_views(Seq::<MacroEntry>::empty()) =~= Seq::<EntryView>::empty());
                assert(section_entries@.drop_last() =~= Seq::<MacroEntry>::empty());
                assert(section_entries@.last().key@ == "data"@);
                assert(macro_view(section_entries@.last().value) == MacroView::Array(
                    macro_views(slot_docs_view),
                ));
                assert(entry_views(section_entries@) == entry_views(
                    section_entries@.drop_last(),
                ).push(
                    EntryView {
                        key: section_entries@.last().key@,
                        value: macro_view(section_entries@.last().value),
                    },
                ));
                assert(entry_views(section_entries@) =~= seq![
                    EntryView {
                        key: "data"@,
                        value: MacroView::Array(macro_views(slot_docs_view)),
                    },
                ]);
                assert(section_doc@ == spec_section_tree(self.sections()[si as int]));
            }
            let ghost docs0 = section_docs@;
            section_docs.push(section_doc);
            proof {
                assert(section_docs@.drop_last() =~= docs0);
                assert(macro_views(section_docs@) == macro_views(docs0).push(section_doc@));
                crate::macro_data::lemma_macro_views_len(section_docs@);
                assert forall|t: int|
                    0 <= t < si + 1 implies macro_views(section_docs@)[t] == spec_section_tree(
                    #[trigger] self.sections()[t],
                ) by {
                    if t < si {
                        assert(macro_views(section_docs@)[t] == macro_views(docs0)[t]);
                    }
                };
            }
            si = si + 1;
        }
        let ghost section_docs_view = section_docs@;
        let mut top_entries: Vec<MacroEntry> = Vec::new();
        top_entries.push(
            MacroEntry { key: String::from_str("data"), value: MacroValue::Array(section_docs) },
        );
        let r = MacroValue::Dict(top_entries);
        proof {
            assert(macro_views(section_docs_view) =~= self.sections().map_values(
                |s: Seq<Option<BlockDataInfo>>| spec_section_tree(s),
            ));
            assert(entry_views(Seq::<MacroEntry>::empty()) =~= Seq::<EntryView>::empty());
            assert(top_entries@.drop_last() =~= Seq::<MacroEntry>::empty());
            assert(top_entries@.last().key@ == "data"@);
            assert(macro_view(top_entries@.last().value) == MacroView::Array(
                macro_views(section_docs_view),
            ));
            assert(entry_views(top_entries@) == entry_views(top_entries@.drop_last()).push(
                EntryView {
                    key: top_entries@.last().key@,
                    value: macro_view(top_entries@.last().value),
                },
            ));
            assert(entry_views(top_entries@) =~= seq![
                EntryView {
                    key: "data"@,
                    value: MacroView::Array(macro_views(section_docs_view)),
                },
            ]);
            assert(entry_views(top_entries@) =~= spec_chunk_tree(self.sections())->Dict_0);
        }
        r
    }

    /// Reads a chunk back from its document form; fails on any document
    /// that is not a well-formed chunk.
    pub fn from_document(tree: &MacroValue) -> (r: Result<Self, String>)
        ensures
            (r is Ok) == (spec_chunk_of_tree(tree@) is Some),
            r matches Ok(c) ==> c.wf() && spec_chunk_of_tree(tree@) == Some(c.sections()),
    {
        let top_entries = match tree {
            MacroValue::Dict(entries) => entries,
            _ => {
                return Err(String::from_str("chunk document error: not an object"));
            },
        };
        let section_docs = match crate::json::dict_get(top_entries, "data") {
            Some(MacroValue::Array(docs)) => docs,
            _ => {
                return Err(String::from_str("chunk document error: missing sections"));
            },
        };
        if section_docs.len() > VERTICAL_SECTIONS {
            proof {
                crate::macro_data::lemma_macro_views_len(section_docs@);
            }
            return Err(String::from_str("chunk document error: too many sections"));
        }
        let ghost sec_views = macro_views(section_docs@);
        proof {
            crate::macro_data::lemma_macro_views_len(section_docs@);
        }
        let section_count = section_docs.len();
        let mut parsed: Vec<ChunkSectionData> = Vec::new();
        let mut si: usize = 0;
        while si < section_count
            invariant
                sec_views == macro_views(section_docs@),
                sec_views.len() == section_docs@.len(),
                section_count == section_docs@.len(),
                section_count <= VERTICAL_SECTIONS,
                spec_chunk_of_tree(tree@) == spec_sections_of(sec_views, sec_views.len() as nat),
                si <= section_docs@.len(),
                parsed@.len() == si,
                forall|t: int| 0 <= t < si ==> #[trigger] parsed@[t].wf(),
                spec_sections_of(sec_views, si as nat) == Some(
                    parsed@.map_values(|s: ChunkSectionData| s.slots()),
                ),
            decreases section_docs@.len() - si,
        {
            proof {
                crate::macro_data::lemma_macro_views_index(section_docs@, si as int);
            }
            let section_entries = match &section_docs[si] {
                MacroValue::Dict(entries) => entries,
                _ => {
                    proof {
                        assert(spec_section_of(sec_views[si as int]) is None);
                        lemma_sections_of_none(sec_views, (si + 1) as nat, sec_views.len() as nat);
                    }
                    return Err(String::from_str("chunk document error: section is not an object"));
                },
            };
            let slot_docs = match crate::json::dict_get(section_entries, "data") {
                Some(MacroValue::Array(docs)) => docs,
                _ => {
                    proof {
                        assert(spec_section_of(sec_views[si as int]) is None);
                        lemma_sections_of_none(sec_views, (si + 1) as nat, sec_views.len() as nat);
                    }
                    return Err(String::from_str("chunk document error: missing slots"));
                },
            };
            if slot_docs.len() != SECTION_VOLUME {
                proof {
                    crate::macro_data::lemma_macro_views_len(slot_docs@);
                    assert(spec_section_of(sec_views[si as int]) is None);
                    lemma_sections_of_none(sec_views, (si + 1) as nat, sec_views.len() as nat);
                }
                return Err(String::from_str("chunk document error: wrong slot count"));
            }
            let ghost slot_views = macro_views(slot_docs@);
            proof {
                crate::macro_data::lemma_macro_views_len(slot_docs@);
            }
            let mut slots: Vec<Option<BlockDataInfo>> = Vec::new();
            let mut i: usize = 0;
            while i < SECTION_VOLUME
                invariant
                    sec_views == macro_views(section_docs@),
                    sec_views.len() == section_docs@.len(),
                    si < section_docs@.len(),
                    spec_chunk_of_tree(tree@) == spec_sections_of(
                        sec_views,
                        sec_views.len() as nat,
                    ),
                    spec_sections_of(sec_views, si as nat) == Some(
                        parsed@.map_values(|s: ChunkSectionData| s.slots()),
                    ),
                    spec_section_of(sec_views[si as int]) == spec_slots_of(
                        slot_views,
                        SECTION_VOLUME as nat,
                    ),
                    slot_views == macro_views(slot_docs@),
                    slot_views.len() == SECTION_VOLUME,
                    slot_docs@.len() == SECTION_VOLUME,
                    i <= SECTION_VOLUME,
                    slots@.len() == i,
                    spec_slots_of(slot_views, i as nat) == Some(slots@),
                decreases SECTION_VOLUME - i,
            {
                proof {
                    crate::macro_data::lemma_macro_views_index(slot_docs@, i as int);
                }
                match slot_of_document(&slot_docs[i]) {
                    Ok(slot) => {
                        slots.push(slot);
                    },
                    Err(()) => {
                        proof {
                            lemma_slots_of_none(slot_views, (i + 1) as nat, SECTION_VOLUME as nat);
                            lemma_sections_of_none(
                                sec_views,
                                (si + 1) as nat,
                                sec_views.len() as nat,
                            );
                        }
                        return Err(String::from_str("chunk document error: malformed slot"));
                    },
                }
                i = i + 1;
            }
            let section = ChunkSectionData { data: slots };
            let ghost parsed0 = parsed@;
            parsed.push(section);
            proof {
                assert(parsed@.drop_last() =~= parsed0);
                assert(parsed@.map_values(|s: ChunkSectionData| s.slots()) =~= parsed0.map_values(
                    |s: ChunkSectionData| s.slots(),
                ).push(section.slots()));
            }
            si = si + 1;
        }
        let chunk = ChunkData { data: parsed };
        proof {
            assert(chunk.sections() == parsed@.map_values(|s: ChunkSectionData| s.slots()));
            assert forall|t: int|
                0 <= t < chunk.sections().len() implies #[trigger] chunk.sections()[t].len()
                == SECTION_VOLUME by {
                assert(parsed@[t].wf());
            };
        }
        Ok(chunk)
    }
}

proof fn lemma_face_name_roundtrip(f: BlockFace)
    ensures
        spec_face_of_name(spec_face_name(f)) == Some(f),
{
    reveal_strlit("Down");
    reveal_strlit("Up");
    reveal_strlit("North");
    reveal_strlit("South");
    reveal_strlit("West");
    reveal_strlit("East");
    assert("Down"@.len() == 4 && "Down"@[0] == 'D');
    assert("Up"@.len() == 2 && "Up"@[0] == 'U');
    assert("North"@.len() == 5 && "North"@[0] == 'N');
    assert("South"@.len() == 5 && "South"@[0] == 'S');
    assert("West"@.len() == 4 && "West"@[0] == 'W');
    assert("East"@.len() == 4 && "East"@[0] == 'E');
}

proof fn lemma_slot_roundtrip(o: Option<BlockDataInfo>)
    ensures
        spec_slot_of(spec_slot_tree(o)) == Some(o),
{
    reveal_strlit("id");
    reveal_strlit("face");
    reveal_strlit("color");
    assert("id"@.len() == 2 && "face"@.len() == 4 && "color"@.len() == 5);
    match o {
        None => {
        },
        Some(b) => {
            let ms = spec_slot_tree(o)->Dict_0;
            assert(spec_dict_get(ms, "id"@) == Some(ms[0].value));
            assert(ms[0].key != "face"@ && ms[0].key != "color"@);
            let rest = ms.drop_first();
            assert(rest[0] == ms[1] && rest[1] == ms[2]);
            assert(spec_dict_get(ms, "face"@) == spec_dict_get(rest, "face"@));
            assert(spec_dict_get(rest, "face"@) == Some(ms[1].value));
            assert(ms[1].key != "color"@);
            let rest2 = rest.drop_first();
            assert(rest2[0] == ms[2]);
            assert(spec_dict_get(ms, "color"@) == spec_dict_get(rest, "color"@));
            assert(spec_dict_get(rest, "color"@) == spec_dict_get(rest2, "color"@));
            assert(spec_dict_get(rest2, "color"@) == Some(rest2[0].value));
            assert(spec_dict_get(ms, "color"@) == Some(ms[2].value));
            match b.face {
                None => {
                },
                Some(f) => {
                    lemma_face_name_roundtrip(f);
                },
            }
        },
    }
}

proof fn lemma_slots_roundtrip(s: Seq<Option<BlockDataInfo>>, k: nat)
    requires
        k <= s.len(),
    ensures
        spec_slots_of(s.map_values(|o: Option<BlockDataInfo>| spec_slot_tree(o)), k) == Some(
            s.take(k as int),
        ),
    decreases k,
{
    let vs = s.map_values(|o: Option<BlockDataInfo>| spec_slot_tree(o));
    if k == 0 {
        assert(s.take(0) =~= Seq::<Option<BlockDataInfo>>::empty());
    } else {
        lemma_slots_roundtrip(s, (k - 1) as nat);
        lemma_slot_roundtrip(s[k - 1]);
        assert(vs[k - 1] == spec_slot_tree(s[k - 1]));
        assert(s.take(k as int) =~= s.take(k as int - 1).push(s[k - 1]));
    }
}

proof fn lemma_section_roundtrip(s: Seq<Option<BlockDataInfo>>)
    requires
        s.len() == SECTION_VOLUME,
    ensures
        spec_section_of(spec_section_tree(s)) == Some(s),
{
    reveal_strlit("data");
    let ms = spec_section_tree(s)->Dict_0;
    assert(spec_dict_get(ms, "data"@) == Some(ms[0].value));
    lemma_slots_roundtrip(s, SECTION_VOLUME as nat);
    assert(s.take(SECTION_VOLUME as int) =~= s);
}

proof fn lemma_sections_roundtrip(ss: Seq<Seq<Option<BlockDataInfo>>>, k: nat)
    requires
        k <= ss.len(),
        forall|t: int| 0 <= t < ss.len() ==> #[trigger] ss[t].len() == SECTION_VOLUME,
    ensures
        spec_sections_of(
            ss.map_values(|s: Seq<Option<BlockDataInfo>>| spec_section_tree(s)),
            k,
        ) == Some(ss.take(k as int)),
    decreases k,
{
    let vs = ss.map_values(|s: Seq<Option<BlockDataInfo>>| spec_section_tree(s));
    if k == 0 {
        assert(ss.take(0) =~= Seq::<Seq<Option<BlockDataInfo>>>::empty());
    } else {
        lemma_sections_roundtrip(ss, (k - 1) as nat);
        lemma_section_roundtrip(ss[k - 1]);
        assert(vs[k - 1] == spec_section_tree(ss[k - 1]));
        assert(ss.take(k as int) =~= ss.take(k as int - 1).push(ss[k - 1]));
    }
}

/// Round trip of the chunk document form at the specification level:
/// reading back the document of a well-formed chunk gives exactly the
/// chunk's sections.
pub proof fn lemma_chunk_document_roundtrip(ss: Seq<Seq<Option<BlockDataInfo>>>)
    requires
        sections_wf(ss),
    ensures
        spec_chunk_of_tree(spec_chunk_tree(ss)) == Some(ss),
{
    reveal_strlit("data");
    let ms = spec_chunk_tree(ss)->Dict_0;
    assert(spec_dict_get(ms, "data"@) == Some(ms[0].value));
    lemma_sections_roundtrip(ss, ss.len());
    assert(ss.take(ss.len() as int) =~= ss);
}

proof fn lemma_slots_of_none(vs: Seq<MacroView>, k: nat, n: nat)
    requires
        k <= n,
        spec_slots_of(vs, k) is None,
    ensures
        spec_slots_of(vs, n) is None,
    decreases n,
{
    if n > k {
        lemma_slots_of_none(vs, k, (n - 1) as nat);
    }
}

proof fn lemma_sections_of_none(vs: Seq<MacroView>, k: nat, n: nat)
    requires
        k <= n,
        spec_sections_of(vs, k) is None,
    ensures
        spec_sections_of(vs, n) is None,
    decreases n,
{
    if n > k {
        lemma_sections_of_none(vs, k, (n - 1) as nat);
    }
}

} // verus!
