use write_session::{Chunk, ContentMap, DataMap, Pipeline};

fn fresh() -> Pipeline {
    Pipeline::new(&ContentMap::new(), &[])
}

fn reopened(pipeline: Pipeline) -> Option<Vec<u8>> {
    let (map, chunks) = pipeline.close()?;
    Pipeline::new(&map, &chunks).get_content().cloned()
}

#[test]
fn a_fresh_pipeline_is_empty() {
    assert_eq!(fresh().get_content(), Some(&Vec::new()));
}

#[test]
fn a_write_at_the_start_is_the_content() {
    let mut pipeline = fresh();
    pipeline.write(b"hello", 0);
    assert_eq!(pipeline.get_content(), Some(&b"hello".to_vec()));
}

#[test]
fn a_write_beyond_the_end_fills_the_gap_with_zeros() {
    let mut pipeline = fresh();
    pipeline.write(&[1, 2, 3], 2);
    assert_eq!(pipeline.get_content(), Some(&vec![0, 0, 1, 2, 3]));
}

#[test]
fn an_empty_write_beyond_the_end_grows_the_content() {
    let mut pipeline = fresh();
    pipeline.write(&[7], 0);
    pipeline.write(&[], 3);
    assert_eq!(pipeline.get_content(), Some(&vec![7, 0, 0]));
}

#[test]
fn an_empty_write_inside_the_content_changes_nothing() {
    let mut pipeline = fresh();
    pipeline.write(&[7, 8, 9], 0);
    pipeline.write(&[], 1);
    assert_eq!(pipeline.get_content(), Some(&vec![7, 8, 9]));
}

#[test]
fn the_latest_of_overlapping_writes_wins() {
    let mut pipeline = fresh();
    pipeline.write(b"aaaaaa", 0);
    pipeline.write(b"bbb", 2);
    pipeline.write(b"cc", 1);
    assert_eq!(pipeline.get_content(), Some(&b"accbba".to_vec()));
}

#[test]
fn writes_may_come_in_any_order_of_offsets() {
    let mut pipeline = fresh();
    pipeline.write(b"world", 6);
    pipeline.write(b"hello", 0);
    pipeline.write(b" ", 5);
    assert_eq!(pipeline.get_content(), Some(&b"hello world".to_vec()));
}

#[test]
fn a_write_inside_the_content_keeps_the_rest() {
    let mut pipeline = fresh();
    pipeline.write(b"0123456789", 0);
    pipeline.write(b"xy", 4);
    assert_eq!(pipeline.get_content(), Some(&b"0123xy6789".to_vec()));
}

#[test]
fn a_write_that_reaches_too_far_fails_the_pipeline() {
    let mut pipeline = fresh();
    pipeline.write(b"abc", 0);
    pipeline.write(b"x", u64::MAX);
    assert_eq!(pipeline.get_content(), None);
    assert!(pipeline.close().is_none());
}

#[test]
fn a_write_that_ends_just_beyond_the_limit_fails_the_pipeline() {
    let mut pipeline = fresh();
    pipeline.write(b"ab", isize::MAX as u64 - 1);
    pipeline.write(b"abc", isize::MAX as u64 - 2);
    assert_eq!(pipeline.get_content(), None);
}

#[test]
fn a_failed_pipeline_stays_failed() {
    let mut pipeline = fresh();
    pipeline.write(b"x", u64::MAX);
    pipeline.write(b"hello", 0);
    assert_eq!(pipeline.get_content(), None);
    assert!(pipeline.close().is_none());
}

fn chunked(map: &ContentMap) -> &DataMap {
    match map {
        ContentMap::Chunked(map) => map,
        ContentMap::Inline(_) => panic!("the content is held inline"),
    }
}

#[test]
fn closing_an_empty_pipeline_gives_the_empty_map_and_no_chunks() {
    let (map, chunks) = fresh().close().unwrap();
    assert_eq!(map, ContentMap::new());
    assert_eq!(map, ContentMap::Inline(Vec::new()));
    assert!(chunks.is_empty());
}

#[test]
fn a_content_of_fewer_than_three_bytes_is_held_inline() {
    let mut one = fresh();
    one.write(b"a", 0);
    assert_eq!(one.close(), Some((ContentMap::Inline(b"a".to_vec()), Vec::new())));
    let mut two = fresh();
    two.write(b"b", 1);
    assert_eq!(two.close(), Some((ContentMap::Inline(vec![0, b'b']), Vec::new())));
}

#[test]
fn the_shortest_content_that_is_encrypted_is_the_shortest_that_the_crate_takes() {
    assert_eq!(self_encryption::MIN_ENCRYPTABLE_BYTES, 3);
    let mut three = fresh();
    three.write(b"abc", 0);
    let (map, chunks) = three.close().unwrap();
    assert_eq!(chunked(&map).chunks.len(), 3);
    assert_eq!(chunks.len(), 3);
}

#[test]
fn a_pipeline_on_an_inline_map_holds_its_bytes() {
    let mut pipeline = Pipeline::new(&ContentMap::Inline(b"ab".to_vec()), &[]);
    assert_eq!(pipeline.get_content(), Some(&b"ab".to_vec()));
    pipeline.write(b"c", 2);
    assert_eq!(reopened(pipeline), Some(b"abc".to_vec()));
    let long = Pipeline::new(&ContentMap::Inline(b"longer than three".to_vec()), &[]);
    assert_eq!(long.get_content(), Some(&b"longer than three".to_vec()));
}

#[test]
fn a_short_content_that_grows_is_encrypted() {
    let mut pipeline = fresh();
    pipeline.write(b"ab", 0);
    let (map, chunks) = pipeline.close().unwrap();
    let mut again = Pipeline::new(&map, &chunks);
    again.write(b"cd", 2);
    let (grown, grown_chunks) = again.close().unwrap();
    assert_eq!(chunked(&grown).chunks.len(), 3);
    assert_eq!(Pipeline::new(&grown, &grown_chunks).get_content(), Some(&b"abcd".to_vec()));
}

#[test]
fn closing_gives_a_map_and_chunks_that_are_not_the_content() {
    let mut pipeline = fresh();
    pipeline.write(b"hello", 0);
    let (map, chunks) = pipeline.close().unwrap();
    let map = chunked(&map);
    assert_eq!(map.chunks.len(), 3);
    assert_eq!(map.child, None);
    assert_eq!(chunks.len(), 3);
    assert_eq!(map.chunks.iter().map(|c| c.src_size).sum::<usize>(), 5);
    assert_eq!(map.chunks.iter().map(|c| c.index).collect::<Vec<_>>(), vec![0, 1, 2]);
    assert!(chunks.iter().all(|c| c.content != b"hello".to_vec()));
}

#[test]
fn closing_the_same_content_twice_gives_the_same_map_and_chunks() {
    let mut first = fresh();
    first.write(b"the same bytes", 0);
    let mut second = fresh();
    second.write(b"bytes", 9);
    second.write(b"the same ", 0);
    assert_eq!(first.close(), second.close());
}

#[test]
fn a_content_of_three_bytes_can_be_closed() {
    let mut pipeline = fresh();
    pipeline.write(b"old", 0);
    assert_eq!(reopened(pipeline), Some(b"old".to_vec()));
}

#[test]
fn what_was_closed_is_read_again() {
    let mut pipeline = fresh();
    pipeline.write(b"hello", 0);
    assert_eq!(reopened(pipeline), Some(b"hello".to_vec()));
}

#[test]
fn a_long_content_is_read_again() {
    let content: Vec<u8> = (0..200_000u32).map(|i| (i % 251) as u8).collect();
    let mut pipeline = fresh();
    pipeline.write(&content[100_000..], 100_000);
    pipeline.write(&content[..100_000], 0);
    assert_eq!(reopened(pipeline), Some(content));
}

#[test]
fn a_reopened_pipeline_takes_writes_over_the_stored_content() {
    let mut pipeline = fresh();
    pipeline.write(b"old", 0);
    let (map, chunks) = pipeline.close().unwrap();
    let mut again = Pipeline::new(&map, &chunks);
    again.write(b"X", 0);
    assert_eq!(again.get_content(), Some(&b"Xld".to_vec()));
    again.write(b"er", 3);
    assert_eq!(reopened(again), Some(b"Xlder".to_vec()));
}

#[test]
fn a_pipeline_on_a_map_without_its_chunks_has_failed() {
    let mut pipeline = fresh();
    pipeline.write(b"hello", 0);
    let (map, _) = pipeline.close().unwrap();
    let mut again = Pipeline::new(&map, &[]);
    assert_eq!(again.get_content(), None);
    again.write(b"x", 0);
    assert!(again.close().is_none());
}

#[test]
fn a_pipeline_on_chunks_that_were_tampered_with_has_failed() {
    let mut pipeline = fresh();
    pipeline.write(b"hello", 0);
    let (map, chunks) = pipeline.close().unwrap();
    let spoilt: Vec<Chunk> =
        chunks.iter().map(|c| Chunk { content: c.content.iter().map(|b| !b).collect() }).collect();
    assert_eq!(Pipeline::new(&map, &spoilt).get_content(), None);
}

#[test]
fn a_pipeline_on_an_inline_map_ignores_the_chunks() {
    let stray = vec![Chunk { content: vec![1, 2, 3] }];
    assert_eq!(Pipeline::new(&ContentMap::new(), &stray).get_content(), Some(&Vec::new()));
}

#[test]
fn a_pipeline_on_a_map_without_entries_is_what_the_crate_makes_of_it() {
    let bare = DataMap { chunks: Vec::new(), child: None };
    assert_eq!(Pipeline::new(&ContentMap::Chunked(bare), &[]).get_content(), Some(&Vec::new()));
    let odd = DataMap { chunks: Vec::new(), child: Some(1) };
    assert_eq!(Pipeline::new(&ContentMap::Chunked(odd), &[]).get_content(), None);
}

#[test]
fn a_chunk_is_named_by_the_hash_of_its_bytes() {
    let empty = Chunk { content: Vec::new() };
    let expected: [u8; 32] = [
        0xaf, 0x13, 0x49, 0xb9, 0xf5, 0xf9, 0xa1, 0xa6, 0xa0, 0x40, 0x4d, 0xea, 0x36, 0xdc, 0xc9,
        0x49, 0x9b, 0xcb, 0x25, 0xc9, 0xad, 0xc1, 0x12, 0xb7, 0xcc, 0x9a, 0x93, 0xca, 0xe4, 0x1f,
        0x32, 0x62,
    ];
    assert_eq!(empty.name(), expected);
    let other = Chunk { content: vec![1, 2, 3] };
    assert_ne!(other.name(), expected);
    assert_eq!(other.name(), self_encryption::hash::content_hash(&[1, 2, 3]).0);
}

#[test]
fn the_map_names_the_chunks_of_a_short_content() {
    let mut pipeline = fresh();
    pipeline.write(b"hello world", 0);
    let (map, chunks) = pipeline.close().unwrap();
    let names: Vec<[u8; 32]> = chunks.iter().map(|c| c.name()).collect();
    let listed: Vec<[u8; 32]> = chunked(&map).chunks.iter().map(|c| c.dst_hash).collect();
    assert_eq!(names, listed);
}

#[test]
fn the_map_and_chunks_are_those_of_the_crate() {
    let mut pipeline = fresh();
    pipeline.write(b"hello world", 0);
    let (map, chunks) = pipeline.close().unwrap();
    let map = chunked(&map);
    let (theirs, their_chunks) =
        self_encryption::encrypt(self_encryption::bytes::Bytes::from_static(b"hello world")).unwrap();
    assert_eq!(map.child, theirs.child);
    assert_eq!(map.chunks.len(), theirs.chunk_identifiers.len());
    for (mine, other) in map.chunks.iter().zip(theirs.chunk_identifiers.iter()) {
        assert_eq!(mine.index, other.index);
        assert_eq!(mine.dst_hash, other.dst_hash.0);
        assert_eq!(mine.src_hash, other.src_hash.0);
        assert_eq!(mine.src_size, other.src_size);
    }
    let bytes: Vec<Vec<u8>> = their_chunks.iter().map(|c| c.content.to_vec()).collect();
    assert_eq!(chunks.iter().map(|c| c.content.clone()).collect::<Vec<_>>(), bytes);
}
