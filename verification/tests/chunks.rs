use gftp::chunks::{get_chunks, write_chunk, GftpChunk};
use gftp::num_chunks;
use gftp::DEFAULT_CHUNK_SIZE;

fn sample_data(len: usize) -> Vec<u8> {
    let mut v = Vec::with_capacity(len);
    for i in 0..len {
        v.push((i % 251) as u8);
    }
    v
}

#[test]
fn num_chunks_rounds_up() {
    assert_eq!(num_chunks(0, 40960), 0);
    assert_eq!(num_chunks(1, 40960), 1);
    assert_eq!(num_chunks(40960, 40960), 1);
    assert_eq!(num_chunks(40961, 40960), 2);
    assert_eq!(num_chunks(100000, 40960), 3);
    assert_eq!(num_chunks(u64::MAX, 1), u64::MAX);
}

#[test]
fn default_chunk_size_is_forty_kib() {
    assert_eq!(DEFAULT_CHUNK_SIZE, 40 * 1024);
}

#[test]
fn chunk_cut_of_hundred_thousand_bytes() {
    let data = sample_data(100000);
    let (size, chunks) = get_chunks(&data, 40960);
    assert_eq!(size, 100000);
    assert_eq!(chunks.len(), 3);
    assert_eq!(chunks[0].offset, 0);
    assert_eq!(chunks[1].offset, 40960);
    assert_eq!(chunks[2].offset, 81920);
    assert_eq!(chunks[0].content.len(), 40960);
    assert_eq!(chunks[1].content.len(), 40960);
    assert_eq!(chunks[2].content.len(), 18080);
}

#[test]
fn chunk_cut_of_exact_multiple() {
    let data = sample_data(81920);
    let (_, chunks) = get_chunks(&data, 40960);
    assert_eq!(chunks.len(), 2);
    assert_eq!(chunks[1].content.len(), 40960);
}

#[test]
fn chunk_cut_of_empty_file() {
    let data: Vec<u8> = Vec::new();
    let (size, chunks) = get_chunks(&data, 40960);
    assert_eq!(size, 0);
    assert_eq!(chunks.len(), 0);
}

#[test]
fn chunks_concatenate_back_to_the_file() {
    let data = sample_data(100000);
    let (_, chunks) = get_chunks(&data, 40960);
    let mut rebuilt: Vec<u8> = Vec::new();
    for c in &chunks {
        assert_eq!(c.offset as usize, rebuilt.len());
        rebuilt.extend_from_slice(&c.content);
    }
    assert_eq!(rebuilt, data);
}

#[test]
fn write_chunk_overwrites_in_place() {
    let mut data = vec![1u8, 2, 3, 4, 5];
    let content = vec![9u8, 8];
    write_chunk(&mut data, 1, &content);
    assert_eq!(data, vec![1u8, 9, 8, 4, 5]);
}

#[test]
fn write_chunk_zero_fills_a_gap() {
    let mut data: Vec<u8> = Vec::new();
    let content = vec![7u8, 7];
    write_chunk(&mut data, 3, &content);
    assert_eq!(data, vec![0u8, 0, 0, 7, 7]);
}

#[test]
fn write_chunk_extends_past_the_end() {
    let mut data = vec![1u8, 2];
    let content = vec![5u8, 6, 7];
    write_chunk(&mut data, 1, &content);
    assert_eq!(data, vec![1u8, 5, 6, 7]);
}

#[test]
fn chunks_rebuild_through_write_chunk() {
    let data = sample_data(9999);
    let (_, chunks) = get_chunks(&data, 1000);
    assert_eq!(chunks.len(), 10);
    let mut rebuilt: Vec<u8> = Vec::new();
    for GftpChunk { offset, content } in &chunks {
        write_chunk(&mut rebuilt, *offset, content);
    }
    assert_eq!(rebuilt, data);
}
