use world_core::blocks::{BlockDataInfo, BlockFace};
use world_core::chunk_data::{ChunkData, ChunkSectionData};
use world_core::positions::{BlockPosition, ChunkBlockPosition};

#[test]
fn test_chunks_data() {
    let mut sections = ChunkData::default();
    sections.push_section(ChunkSectionData::default());
    sections.change_block(
        0,
        &ChunkBlockPosition::new(0, 0, 0),
        Some(BlockDataInfo::create(0)),
    );
    sections.change_block(
        0,
        &ChunkBlockPosition::new(1, 1, 1),
        Some(BlockDataInfo::create(0)),
    );

    let encoded = sections.encode();
    assert!(encoded.len() < 5000);

    let encoded = sections.compress();
    let target_max = 200;
    assert!(
        encoded.len() <= target_max,
        "{}",
        format!(
            "compressed result len: {} more than target max {}",
            encoded.len(),
            target_max
        )
    );

    let decoded_chunk_data = ChunkData::decompress(encoded).unwrap();
    assert_eq!(
        sections.get(0).unwrap().len(),
        decoded_chunk_data.get(0).unwrap().len()
    );
}

#[test]
fn encode_decode_round_trip_preserves_faces_and_colors() {
    let mut chunk = ChunkData::default();
    chunk.push_section(ChunkSectionData::default());
    chunk.push_section(ChunkSectionData::default());
    let decorated = BlockDataInfo::create(7).face(BlockFace::North).color(42);
    chunk.change_block(0, &ChunkBlockPosition::new(3, 2, 1), Some(decorated));
    chunk.change_block(1, &ChunkBlockPosition::new(15, 15, 15), Some(BlockDataInfo::create(9)));

    let decoded = ChunkData::decode(chunk.encode()).unwrap();
    assert_eq!(decoded.len(), 2);
    let block = decoded
        .get(0)
        .unwrap()
        .get(&ChunkBlockPosition::new(3, 2, 1))
        .copied()
        .unwrap();
    assert_eq!(block.get_id(), 7);
    assert_eq!(*block.get_face(), Some(BlockFace::North));
    assert_eq!(*block.get_color(), Some(42));
    let other = decoded
        .get(1)
        .unwrap()
        .get(&ChunkBlockPosition::new(15, 15, 15))
        .copied()
        .unwrap();
    assert_eq!(other.get_id(), 9);
    assert_eq!(*other.get_face(), None);
}

#[test]
fn decompress_round_trip_equals_original() {
    let mut chunk = ChunkData::default();
    chunk.push_section(ChunkSectionData::default());
    chunk.change_block(0, &ChunkBlockPosition::new(5, 6, 7), Some(BlockDataInfo::create(3)));
    let original_bytes = chunk.encode();
    let restored = ChunkData::decompress(chunk.compress()).unwrap();
    assert_eq!(restored.encode(), original_bytes);
}

#[test]
fn decode_rejects_malformed_input() {
    assert!(ChunkData::decode(vec![]).is_err());
    assert!(ChunkData::decode(vec![1, 2, 3]).is_err());
    // A section count above the maximum is refused.
    let mut too_many = vec![17u8, 0, 0, 0, 0, 0, 0, 0];
    assert!(ChunkData::decode(too_many.clone()).is_err());
    // Trailing bytes are refused.
    too_many[0] = 0;
    too_many.push(0);
    assert!(ChunkData::decode(too_many).is_err());
    // The empty chunk decodes from its exact encoding.
    let empty = ChunkData::default();
    assert_eq!(ChunkData::decode(empty.encode()).unwrap().len(), 0);
}

#[test]
fn section_change_insert_get_len() {
    let mut section = ChunkSectionData::default();
    let p = ChunkBlockPosition::new(1, 2, 3);
    assert!(section.get(&p).is_none());
    assert_eq!(section.len(), 0);

    section.change(&p, Some(BlockDataInfo::create(5)));
    assert_eq!(section.get(&p).unwrap().get_id(), 5);
    assert_eq!(section.len(), 1);

    let previous = section.insert(&p, BlockDataInfo::create(6));
    assert_eq!(previous.unwrap().get_id(), 5);
    assert_eq!(section.get(&p).unwrap().get_id(), 6);
    assert_eq!(section.len(), 1);

    section.change(&p, None);
    assert!(section.get(&p).is_none());
    assert_eq!(section.len(), 0);

    let displaced = section.insert(&p, BlockDataInfo::create(8));
    assert!(displaced.is_none());
    assert_eq!(section.len(), 1);
}

#[test]
fn section_iter_lists_occupied_slots_in_order() {
    let mut section = ChunkSectionData::default();
    section.change(&ChunkBlockPosition::new(2, 0, 0), Some(BlockDataInfo::create(11)));
    section.change(&ChunkBlockPosition::new(0, 1, 0), Some(BlockDataInfo::create(12)));
    let pairs = section.iter();
    assert_eq!(pairs.len(), 2);
    assert_eq!(pairs[0].0, 2);
    assert_eq!(pairs[0].1.get_id(), 11);
    assert_eq!(pairs[1].0, 256);
    assert_eq!(pairs[1].1.get_id(), 12);
}

#[test]
fn block_equality_ignores_color() {
    let plain = BlockDataInfo::create(4);
    let colored = BlockDataInfo::create(4).color(9);
    assert_eq!(plain, colored);
    let faced = BlockDataInfo::create(4).face(BlockFace::Up);
    assert_ne!(plain, faced);
    let mut adjusted = faced;
    adjusted.set_face(None);
    assert_eq!(plain, adjusted);
}

#[test]
fn push_section_succeeds_up_to_the_section_limit() {
    let mut chunk = ChunkData::default();
    for _ in 0..15 {
        chunk.push_section(ChunkSectionData::default());
    }
    assert_eq!(chunk.len(), 15);
    // One below the limit: one more section still fits.
    chunk.push_section(ChunkSectionData::default());
    assert_eq!(chunk.len(), 16);
}

#[test]
fn get_block_info_reads_through_sections() {
    let mut chunk = ChunkData::default();
    chunk.push_section(ChunkSectionData::default());
    chunk.push_section(ChunkSectionData::default());
    chunk.change_block(1, &ChunkBlockPosition::new(4, 5, 6), Some(BlockDataInfo::create(2)));
    let found = chunk.get_block_info(&BlockPosition::new(4, 21, 6)).unwrap();
    assert_eq!(found.get_id(), 2);
    assert!(chunk.get_block_info(&BlockPosition::new(0, 0, 0)).is_none());
}

#[test]
fn linearize_follows_the_fixed_ordering() {
    assert_eq!(ChunkBlockPosition::new(0, 0, 0).linearize(), 0);
    assert_eq!(ChunkBlockPosition::new(1, 0, 0).linearize(), 1);
    assert_eq!(ChunkBlockPosition::new(0, 0, 1).linearize(), 16);
    assert_eq!(ChunkBlockPosition::new(0, 1, 0).linearize(), 256);
    assert_eq!(ChunkBlockPosition::new(15, 15, 15).linearize(), 4095);
}

#[test]
fn block_position_split_handles_negative_columns() {
    let (section, local) = BlockPosition::new(-1, 17, -16).get_block_position();
    assert_eq!(section, 1);
    assert_eq!(local.linearize(), ChunkBlockPosition::new(15, 1, 0).linearize());
}
