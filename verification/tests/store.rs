use gftp::address::NodeId;
use gftp::chunks::GftpChunk;
use gftp::error::Error;
use gftp::pipeline::{Pipeline, DOWNLOAD_CONCURRENCY, UPLOAD_CONCURRENCY};
use gftp::store::{
    chunk_uploaded, download_file, open_for_upload, publish, random_token, upload_file,
    upload_finished, FileDesc, TOKEN_LEN,
};
use sha3::{Digest, Sha3_256};

fn sample_data(len: usize) -> Vec<u8> {
    let mut v = Vec::with_capacity(len);
    for i in 0..len {
        v.push((i % 251) as u8);
    }
    v
}

fn sha3_hex(data: &[u8]) -> Vec<u8> {
    let digest = Sha3_256::digest(data);
    let mut hex = String::new();
    for b in digest.iter() {
        hex.push_str(&format!("{:02x}", b));
    }
    hex.into_bytes()
}

#[test]
fn library_digest_matches_the_hasher() {
    let data = b"abc".to_vec();
    let desc = FileDesc::open(data.clone(), 0);
    assert_eq!(desc.hash, sha3_hex(&data));
    assert_eq!(desc.hash.len(), 64);
}

#[test]
fn empty_file_digest_is_the_known_constant() {
    let desc = FileDesc::open(Vec::new(), 0);
    assert_eq!(
        desc.hash,
        b"a7ffc6f8bf1ed76651c14756a061d662f580ff4de43b49fa82d80a4b80f8434a".to_vec()
    );
}

#[test]
fn metadata_reports_the_size_and_resets_progress() {
    let mut desc = FileDesc::open(sample_data(1234), 0);
    desc.upload_progress.current = 99;
    let meta = desc.handle_get_metadata(500);
    assert_eq!(meta.file_size, 1234);
    assert_eq!(desc.upload_progress.total, 1234);
    assert_eq!(desc.upload_progress.current, 0);
    assert_eq!(desc.upload_progress.start, 500);
    assert!(desc.upload_progress.upload_list.is_empty());
}

#[test]
fn served_chunks_are_clipped_and_advance_progress() {
    let data = sample_data(100);
    let mut desc = FileDesc::open(data.clone(), 0);
    let c = desc.handle_get_chunk(90, 40).expect("inside the file");
    assert_eq!(c.offset, 90);
    assert_eq!(c.content, data[90..100].to_vec());
    assert_eq!(desc.upload_progress.current, 100);
    assert_eq!(desc.upload_progress.total, 100);
}

#[test]
fn chunk_past_the_end_is_a_read_error() {
    let mut desc = FileDesc::open(sample_data(10), 0);
    match desc.handle_get_chunk(10, 4) {
        Err(Error::ReadError(_)) => {}
        _ => panic!("an offset at the end of the file must fail with a read error"),
    }
}

#[test]
fn download_reconstructs_the_published_file() {
    let data = sample_data(100000);
    let mut remote = FileDesc::open(data.clone(), 0);
    let (dest, progress, _) = download_file(&mut remote, 40960, 0);
    assert_eq!(dest, data);
    assert_eq!(progress.total, 100000);
    assert_eq!(progress.current, 100000);
}

#[test]
fn download_of_an_empty_file_completes_at_once() {
    let mut remote = FileDesc::open(Vec::new(), 0);
    let (dest, progress, _) = download_file(&mut remote, 40960, 0);
    assert!(dest.is_empty());
    assert_eq!(progress.current, 0);
    assert_eq!(progress.total, 0);
}

#[test]
fn download_of_a_file_smaller_than_one_chunk() {
    let data = sample_data(100);
    let mut remote = FileDesc::open(data.clone(), 0);
    let (dest, progress, _) = download_file(&mut remote, 40960, 0);
    assert_eq!(dest, data);
    assert_eq!(progress.current, 100);
}

#[test]
fn upload_of_an_empty_file_completes_at_once() {
    let data: Vec<u8> = Vec::new();
    let mut target = open_for_upload(0);
    let progress = upload_file(&data, &mut target, 40960, 0).0.expect("an empty upload verifies");
    assert!(target.data.is_empty());
    assert_eq!(progress.current, 0);
    assert_eq!(progress.total, 0);
}

#[test]
fn upload_reconstructs_the_source_and_verifies() {
    let data = sample_data(100000);
    let mut target = open_for_upload(0);
    let progress = upload_file(&data, &mut target, 40960, 0).0.expect("the declared hash matches");
    assert_eq!(target.data, data);
    assert_eq!(progress.total, 100000);
    assert_eq!(progress.current, 100000);
}

#[test]
fn upload_with_altered_content_fails_the_integrity_check() {
    let data = sample_data(5000);
    let mut target = open_for_upload(0);
    // Push the real content, then tamper with one received byte before
    // the finish call declares the original digest.
    let chunk = GftpChunk { offset: 0, content: data.clone() };
    target.handle_upload_chunk(&chunk, 0).expect("an in-memory write succeeds");
    target.data[17] ^= 0xff;
    let declared = sha3_hex(&data);
    match target.handle_upload_finished(Some(&declared)) {
        Err(Error::IntegrityError) => {}
        _ => panic!("altered content must fail with the integrity error"),
    }
    // Untampered content passes the same check.
    let mut clean = open_for_upload(0);
    clean.handle_upload_chunk(&chunk, 0).expect("an in-memory write succeeds");
    assert!(clean.handle_upload_finished(Some(&declared)).is_ok());
}

#[test]
fn upload_over_a_longer_stale_target_fails_the_integrity_check() {
    let stale = sample_data(9000);
    let mut target = open_for_upload(0);
    target
        .handle_upload_chunk(&GftpChunk { offset: 0, content: stale.clone() }, 0)
        .expect("an in-memory write succeeds");
    // A shorter re-upload overwrites the prefix; the stale tail survives
    // the writes, so the declared digest of the source cannot match.
    let source = sample_data(5000);
    let (verdict, _) = upload_file(&source, &mut target, 40960, 0);
    match verdict {
        Err(Error::IntegrityError) => {}
        _ => panic!("a surviving stale tail must fail the integrity check"),
    }
    assert_eq!(target.data[..5000], source[..]);
    assert_eq!(target.data[5000..], stale[5000..]);
    // A re-upload at least as long as the old contents overwrites them
    // entirely and verifies.
    let longer = sample_data(9000);
    let (verdict, _) = upload_file(&longer, &mut target, 40960, 0);
    assert!(verdict.is_ok());
    assert_eq!(target.data, longer);
}

#[test]
fn finish_without_a_declared_hash_skips_verification() {
    let data = vec![1u8, 2, 3];
    assert!(upload_finished(&data, None).is_ok());
}

#[test]
fn upload_chunk_at_offset_zero_restarts_the_window() {
    let mut target = open_for_upload(0);
    target.progress.push_sample(1);
    let chunk = GftpChunk { offset: 0, content: vec![1u8, 2] };
    target.handle_upload_chunk(&chunk, 777).expect("an in-memory write succeeds");
    assert_eq!(target.progress.start, 777);
    assert!(target.progress.upload_list.is_empty());
    assert_eq!(target.progress.current, 2);
    assert_eq!(target.progress.total, 2);
    let later = GftpChunk { offset: 2, content: vec![3u8] };
    target.handle_upload_chunk(&later, 999).expect("an in-memory write succeeds");
    assert_eq!(target.progress.start, 777);
    assert_eq!(target.progress.current, 3);
}

#[test]
fn chunk_uploaded_writes_at_the_offset() {
    let mut data = vec![0u8; 4];
    let chunk = GftpChunk { offset: 2, content: vec![8u8, 9, 10] };
    chunk_uploaded(&mut data, &chunk).expect("an in-memory write succeeds");
    assert_eq!(data, vec![0u8, 0, 8, 9, 10]);
}

#[test]
fn minted_tokens_are_long_random_and_alphanumeric() {
    let a = random_token();
    let b = random_token();
    assert_eq!(a.len() as u64, TOKEN_LEN);
    assert_eq!(b.len() as u64, TOKEN_LEN);
    assert!(a.iter().all(|c| c.is_ascii_alphanumeric()));
    assert_ne!(a, b);
}

#[test]
fn publish_returns_the_hash_address() {
    let node = NodeId { bytes: vec![0u8; 20] };
    let data = b"hello".to_vec();
    let (desc, url) = publish(data.clone(), &node, 0);
    let mut expected = format!("gftp://0x{}/", "0".repeat(40)).into_bytes();
    expected.extend_from_slice(&sha3_hex(&data));
    assert_eq!(url, expected);
    assert_eq!(desc.meta.file_size, 5);
}

#[test]
fn pipeline_enforces_its_ceiling() {
    let mut p = Pipeline::new(100, DOWNLOAD_CONCURRENCY);
    let mut issued = 0u64;
    while p.can_issue() {
        p.issue();
        issued += 1;
    }
    // With nothing completing, exactly the ceiling is outstanding.
    assert_eq!(issued, DOWNLOAD_CONCURRENCY);
    p.complete();
    assert!(p.can_issue());
    assert!(!p.is_done());
}

#[test]
fn upload_ceiling_is_three_and_download_is_twelve() {
    assert_eq!(DOWNLOAD_CONCURRENCY, 12);
    assert_eq!(UPLOAD_CONCURRENCY, 3);
    let mut p = Pipeline::new(2, UPLOAD_CONCURRENCY);
    // Fewer work items than the ceiling: issuing stops at the work list.
    assert!(p.can_issue());
    p.issue();
    p.issue();
    assert!(!p.can_issue());
}

#[test]
fn error_descriptions_name_the_variant() {
    assert_eq!(Error::IntegrityError.describe(), "integrity error");
    assert_eq!(Error::ReadError(String::new()).describe(), "read error");
    assert_eq!(Error::WriteError(String::new()).describe(), "write error");
    assert_eq!(Error::InternalError(String::new()).describe(), "internal error");
}
