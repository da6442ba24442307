use vstd::prelude::*;
use crate::address::{gftp_url, is_token_byte, spec_encode, NodeId};
use crate::chunks::{
    GftpChunk, GftpMetadata, bytes_to_read, lemma_chunk_in_range, lemma_covered_step,
    lemma_all_chunks_cover, spec_bytes_to_read, spec_chunk_of, spec_covered, spec_write_at,
    write_chunk, get_chunks,
};
use crate::spec_num_chunks;
use crate::error::Error;
use crate::hash::{hash_file_sha256, sha3_256_of, spec_hex_of};
use crate::pipeline::{Pipeline, DOWNLOAD_CONCURRENCY, UPLOAD_CONCURRENCY};
use crate::progress::{progress_bounded, progress_wf, StreamProgress};

verus! {

/// How many bytes the minted upload token holds.
pub const TOKEN_LEN: u64 = 65;

/// The publish-side descriptor of one file: its bytes, its content hash
/// (the token it is published under), its metadata, and the progress state
/// its request handlers report through. One descriptor serves every
/// request for one file.
pub struct FileDesc {
    pub hash: Vec<u8>,
    pub data: Vec<u8>,
    pub meta: GftpMetadata,
    pub upload_progress: StreamProgress,
}

impl FileDesc {
    /// The descriptor's invariant: the metadata records the exact byte
    /// count, the hash is the content digest of those bytes, and the
    /// progress state is within its own bounds.
    pub open spec fn wf(&self) -> bool {
        &&& self.meta.file_size == self.data@.len()
        &&& self.hash@ == spec_hex_of(sha3_256_of(self.data@))
        &&& progress_wf(&self.upload_progress)
        &&& progress_bounded(&self.upload_progress)
    }

    /// Assemble a descriptor from parts that already agree.
    pub fn new(data: Vec<u8>, hash: Vec<u8>, meta: GftpMetadata, now_ms: u64) -> (d: FileDesc)
        requires
            meta.file_size == data@.len(),
            hash@ == spec_hex_of(sha3_256_of(data@)),
        ensures
            d.wf(),
            d.data@ == data@,
            d.hash@ == hash@,
            d.meta == meta,
            d.upload_progress.total == 0,
            d.upload_progress.current == 0,
            d.upload_progress.start == now_ms,
    {
        FileDesc { hash, data, meta, upload_progress: StreamProgress::new(now_ms) }
    }

    /// Open a file for publishing: hash its contents and record its size.
    /// The hash is the token the file will be addressed by.
    pub fn open(data: Vec<u8>, now_ms: u64) -> (d: FileDesc)
        ensures
            d.wf(),
            d.data@ == data@,
            d.hash@ == spec_hex_of(sha3_256_of(data@)),
            d.hash@.len() == 64,
            d.meta.file_size == data@.len(),
            d.upload_progress.total == 0,
            d.upload_progress.current == 0,
            d.upload_progress.start == now_ms,
    {
        let hash = hash_file_sha256(&data);
        let len_us: usize = data.len();
        let meta = GftpMetadata { file_size: len_us as u64 };
        FileDesc::new(data, hash, meta, now_ms)
    }

    /// The metadata request handler: reports the file size, and resets the
    /// progress state — each metadata fetch counts as the start of a fresh
    /// transfer's observation window.
    pub fn handle_get_metadata(&mut self, now_ms: u64) -> (m: GftpMetadata)
        requires
            old(self).wf(),
        ensures
            final(self).wf(),
            m == old(self).meta,
            final(self).meta == old(self).meta,
            final(self).data == old(self).data,
            final(self).hash == old(self).hash,
            final(self).upload_progress.total == old(self).meta.file_size,
            final(self).upload_progress.current == 0,
            final(self).upload_progress.start == now_ms,
            final(self).upload_progress.upload_list@.len() == 0,
    {
        self.upload_progress.total = self.meta.file_size;
        self.upload_progress.current = 0;
        self.upload_progress.start = now_ms;
        self.upload_progress.upload_list.clear();
        GftpMetadata { file_size: self.meta.file_size }
    }

    /// The chunk request handler: the bytes at `offset`, clipped to the
    /// end of the file, or a read error when `offset` lies at or past the
    /// end. A served chunk moves the progress high-water mark to its end —
    /// a monotonic mark under the normal non-decreasing request order, not
    /// a cumulative sum, so repeated requests do not double-count.
    pub fn handle_get_chunk(&mut self, offset: u64, chunk_size: u64) -> (r: Result<
        GftpChunk,
        Error,
    >)
        requires
            old(self).wf(),
        ensures
            final(self).wf(),
            final(self).meta == old(self).meta,
            final(self).data == old(self).data,
            final(self).hash == old(self).hash,
            r is Ok <==> offset < old(self).meta.file_size,
            r is Err ==> (r->Err_0).is_read_error() && *final(self) == *old(self),
            r is Ok ==> {
                let c = r.unwrap();
                &&& c.offset == offset
                &&& c.content@ == old(self).data@.subrange(
                    offset as int,
                    offset + spec_bytes_to_read(
                        old(self).meta.file_size as nat,
                        offset as nat,
                        chunk_size as nat,
                    ),
                )
                &&& final(self).upload_progress.total == old(self).meta.file_size
                &&& final(self).upload_progress.current == offset + c.content@.len()
                &&& final(self).upload_progress.start == old(self).upload_progress.start
                &&& final(self).upload_progress.upload_list == old(
                    self,
                ).upload_progress.upload_list
            },
    {
        if offset >= self.meta.file_size {
            return Err(Error::ReadError("chunk offset lies past the end of the file".to_owned()));
        }
        let len = bytes_to_read(self.meta.file_size, offset, chunk_size);
        let len_us: usize = self.data.len();
        let mut content: Vec<u8> = Vec::new();
        let mut j: u64 = 0;
        while j < len
            invariant
                offset + len <= self.data@.len(),
                self.data@.len() <= usize::MAX,
                j <= len,
                content@ == self.data@.subrange(offset as int, offset + j),
            decreases len - j,
        {
            content.push(self.data[(offset + j) as usize]);
            proof {
                assert(content@ =~= self.data@.subrange(offset as int, offset + j + 1));
            }
            j = j + 1;
        }
        self.upload_progress.total = self.meta.file_size;
        self.upload_progress.current = offset + len;
        Ok(GftpChunk { offset, content })
    }
}

/// The write handler's file work: put the chunk's bytes at its offset, as
/// a seek followed by a write — an in-memory write cannot fail, so the
/// write-error arm of the protocol is never taken here.
pub fn chunk_uploaded(data: &mut Vec<u8>, chunk: &GftpChunk) -> (r: Result<(), Error>)
    requires
        chunk.offset + chunk.content@.len() <= usize::MAX,
    ensures
        r is Ok,
        final(data)@ == spec_write_at(old(data)@, chunk.offset as nat, chunk.content@),
{
    write_chunk(data, chunk.offset, &chunk.content);
    Ok(())
}

/// The finish handler's decision: with no declared hash, verification is
/// skipped and the upload is accepted; with one, the received bytes are
/// digested and the upload is accepted exactly when the digests agree,
/// and rejected with the integrity error otherwise. Only the uploading
/// peer's call sees that rejection.
pub fn upload_finished(data: &Vec<u8>, expected_hash: Option<&Vec<u8>>) -> (r: Result<(), Error>)
    ensures
        r is Ok <==> (expected_hash is None || expected_hash.unwrap()@ == spec_hex_of(
            sha3_256_of(data@),
        )),
        r is Err ==> (r->Err_0).is_integrity_error(),
{
    match expected_hash {
        None => Ok(()),
        Some(expected) => {
            let actual = hash_file_sha256(data);
            if *expected == actual {
                proof {
                    assert(expected@ =~= actual@);
                }
                Ok(())
            } else {
                proof {
                    assert(!(expected@ =~= actual@));
                }
                Err(Error::IntegrityError)
            }
        },
    }
}

/// One byte drawn from the ASCII letters and digits.
/// Relies on rand::distr::Alphanumeric, a Distribution of u8 over exactly
/// that 62-byte set, sampled from the thread's generator via rand::rng.
#[verifier::external_body]
fn random_alphanumeric_byte() -> (b: u8)
    ensures
        is_token_byte(b),
{
    rand::distr::Distribution::sample(&rand::distr::Alphanumeric, &mut rand::rng())
}

/// A fresh upload token: a high-entropy alphanumeric string. It carries no
/// meaning beyond uniqueness — in particular it is no content hash, since
/// the content is not yet known when an upload target is opened.
pub fn random_token() -> (t: Vec<u8>)
    ensures
        t@.len() == TOKEN_LEN,
        forall|i: int| 0 <= i < t@.len() ==> is_token_byte(#[trigger] t@[i]),
{
    let mut t: Vec<u8> = Vec::new();
    let mut i: u64 = 0;
    while i < TOKEN_LEN
        invariant
            i <= TOKEN_LEN,
            t@.len() == i,
            forall|m: int| 0 <= m < t@.len() ==> is_token_byte(#[trigger] t@[m]),
        decreases TOKEN_LEN - i,
    {
        t.push(random_alphanumeric_byte());
        i = i + 1;
    }
    t
}

/// The receiving side of one upload: the token its handlers are published
/// under, the bytes received so far, and the reception progress state.
pub struct UploadDesc {
    pub token: Vec<u8>,
    pub data: Vec<u8>,
    pub progress: StreamProgress,
}

impl UploadDesc {
    pub open spec fn wf(&self) -> bool {
        &&& self.token@.len() == TOKEN_LEN
        &&& forall|i: int| 0 <= i < self.token@.len() ==> is_token_byte(#[trigger] self.token@[i])
        &&& progress_wf(&self.progress)
        &&& progress_bounded(&self.progress)
    }

    /// The pushed-chunk handler: write the chunk at its offset and move
    /// the high-water mark to its end. The total tracks the mark, since no
    /// size is known in advance of an upload. A chunk at offset zero
    /// counts as the start of a new reception: the observation window
    /// restarts.
    pub fn handle_upload_chunk(&mut self, chunk: &GftpChunk, now_ms: u64) -> (r: Result<(), Error>)
        requires
            old(self).wf(),
            chunk.offset + chunk.content@.len() <= usize::MAX,
        ensures
            r is Ok,
            final(self).wf(),
            final(self).token == old(self).token,
            final(self).data@ == spec_write_at(old(self).data@, chunk.offset as nat, chunk.content@),
            final(self).progress.current == chunk.offset + chunk.content@.len(),
            final(self).progress.total == final(self).progress.current,
            final(self).progress.start == if chunk.offset == 0 {
                now_ms
            } else {
                old(self).progress.start
            },
            chunk.offset == 0 ==> final(self).progress.upload_list@.len() == 0,
            chunk.offset != 0 ==> final(self).progress.upload_list == old(
                self,
            ).progress.upload_list,
    {
        let r = chunk_uploaded(&mut self.data, chunk);
        if chunk.offset == 0 {
            self.progress.start = now_ms;
            self.progress.upload_list.clear();
        }
        let size: u64 = chunk.content.len() as u64;
        self.progress.current = chunk.offset + size;
        self.progress.total = self.progress.current;
        r
    }

    /// The finish handler: verify the received bytes against the declared
    /// hash, if one was declared.
    pub fn handle_upload_finished(&self, expected_hash: Option<&Vec<u8>>) -> (r: Result<(), Error>)
        ensures
            r is Ok <==> (expected_hash is None || expected_hash.unwrap()@ == spec_hex_of(
                sha3_256_of(self.data@),
            )),
            r is Err ==> (r->Err_0).is_integrity_error(),
    {
        upload_finished(&self.data, expected_hash)
    }
}

/// Publish a file: open a descriptor over its bytes and format the
/// address it is reachable at once the caller binds the descriptor's
/// handlers at the substrate address derived from its hash.
pub fn publish(data: Vec<u8>, node: &NodeId, now_ms: u64) -> (r: (FileDesc, Vec<u8>))
    requires
        node.wf(),
    ensures
        r.0.wf(),
        r.0.data@ == data@,
        r.0.hash@ == spec_hex_of(sha3_256_of(data@)),
        r.0.meta.file_size == data@.len(),
        r.1@ == spec_encode(node.bytes@, spec_hex_of(sha3_256_of(data@))),
{
    let desc = FileDesc::open(data, now_ms);
    let url = gftp_url(&desc.hash, node);
    (desc, url)
}

/// The whole download pipeline run against a chunk store reachable by
/// direct call: fetch the metadata, request every chunk in offset order
/// through the bounded pipeline, and settle each answer at its offset in
/// the destination. On success the destination holds exactly the
/// published bytes, and the transfer's progress has settled the whole
/// file — an empty file completes immediately with nothing settled and
/// nothing expected. The third result is the sequence of pipeline states
/// the call drove through: every one of them keeps the download's
/// concurrency ceiling.
pub fn download_file(remote: &mut FileDesc, chunk_size: u64, now_ms: u64) -> (r: (
    Vec<u8>,
    StreamProgress,
    Ghost<Seq<Pipeline>>,
))
    requires
        old(remote).wf(),
        chunk_size > 0,
    ensures
        final(remote).wf(),
        final(remote).data == old(remote).data,
        final(remote).hash == old(remote).hash,
        final(remote).meta == old(remote).meta,
        r.0@ == old(remote).data@,
        r.1.total == old(remote).meta.file_size,
        r.1.current == old(remote).meta.file_size,
        progress_bounded(&r.1),
        r.2@.len() > 0,
        r.2@.first().issued == 0 && r.2@.first().completed == 0,
        r.2@.last().completed == r.2@.last().total,
        forall|t: int|
            0 <= t < r.2@.len() ==> {
                &&& (#[trigger] r.2@[t]).wf()
                &&& r.2@[t].limit == DOWNLOAD_CONCURRENCY
                &&& r.2@[t].in_flight() <= DOWNLOAD_CONCURRENCY
            },
        forall|t: int|
            0 <= t < r.2@.len() - 1 ==> {
                &&& r.2@[t + 1].total == (#[trigger] r.2@[t]).total
                &&& ((r.2@[t + 1].issued == r.2@[t].issued + 1
                    && r.2@[t + 1].completed == r.2@[t].completed)
                    || (r.2@[t + 1].issued == r.2@[t].issued
                        && r.2@[t + 1].completed == r.2@[t].completed + 1))
            },
{
    let metadata = remote.handle_get_metadata(now_ms);
    let file_size = metadata.file_size;
    let n_chunks = crate::num_chunks(file_size, chunk_size);
    let mut progress = StreamProgress::new(now_ms);
    progress.total = file_size;
    let mut dest: Vec<u8> = Vec::new();
    let mut pipe = Pipeline::new(n_chunks, DOWNLOAD_CONCURRENCY);
    let ghost mut trace: Seq<Pipeline> = seq![pipe];
    while !pipe.is_done()
        invariant
            remote.wf(),
            chunk_size > 0,
            remote.meta == old(remote).meta,
            remote.data == old(remote).data,
            remote.hash == old(remote).hash,
            file_size == old(remote).meta.file_size,
            n_chunks == spec_num_chunks(file_size as nat, chunk_size as nat),
            pipe.wf(),
            pipe.total == n_chunks,
            pipe.limit == DOWNLOAD_CONCURRENCY,
            pipe.issued == pipe.completed,
            trace.len() > 0,
            trace.last() == pipe,
            trace.first().issued == 0 && trace.first().completed == 0,
            forall|t: int|
                0 <= t < trace.len() ==> {
                    &&& (#[trigger] trace[t]).wf()
                    &&& trace[t].limit == DOWNLOAD_CONCURRENCY
                    &&& trace[t].in_flight() <= DOWNLOAD_CONCURRENCY
                },
            forall|t: int|
                0 <= t < trace.len() - 1 ==> {
                    &&& trace[t + 1].total == (#[trigger] trace[t]).total
                    &&& ((trace[t + 1].issued == trace[t].issued + 1
                        && trace[t + 1].completed == trace[t].completed)
                        || (trace[t + 1].issued == trace[t].issued
                            && trace[t + 1].completed == trace[t].completed + 1))
                },
            dest@ =~= old(remote).data@.take(
                spec_covered(file_size as nat, chunk_size as nat, pipe.completed as nat) as int,
            ),
            progress.total == file_size,
            progress.current == spec_covered(
                file_size as nat,
                chunk_size as nat,
                pipe.completed as nat,
            ),
            progress.start == now_ms,
            progress.upload_list@.len() == 0,
        decreases n_chunks - pipe.completed,
    {
        let i = pipe.issue();
        proof {
            trace = trace.push(pipe);
            lemma_chunk_in_range(file_size as nat, chunk_size as nat, i as nat);
            lemma_covered_step(file_size as nat, chunk_size as nat, i as nat);
        }
        let offset: u64 = i * chunk_size;
        let res = remote.handle_get_chunk(offset, chunk_size);
        match res {
            Ok(mut chunk) => {
                let got: u64 = chunk.content.len() as u64;
                progress.current = offset + got;
                dest.append(&mut chunk.content);
                pipe.complete();
                proof {
                    trace = trace.push(pipe);
                    assert(dest@ =~= old(remote).data@.take(
                        spec_covered(
                            file_size as nat,
                            chunk_size as nat,
                            pipe.completed as nat,
                        ) as int,
                    ));
                }
            },
            Err(_) => {
                proof {
                    assert(false);
                }
            },
        }
    }
    proof {
        lemma_all_chunks_cover(file_size as nat, chunk_size as nat);
        assert(dest@ =~= old(remote).data@);
    }
    (dest, progress, Ghost(trace))
}

/// The received bytes after the first `cov` source bytes were written
/// over a destination that held `dst` before: the written prefix, then
/// whatever tail of the old contents lies beyond it.
pub open spec fn spec_overlay(src: Seq<u8>, dst: Seq<u8>, cov: nat) -> Seq<u8>
    recommends
        cov <= src.len(),
{
    if dst.len() > cov {
        src.take(cov as int) + dst.skip(cov as int)
    } else {
        src.take(cov as int)
    }
}

/// The whole upload pipeline run against a write target reachable by
/// direct call: split the source into chunks, push each through the
/// bounded pipeline, then declare the source digest and hand on the
/// receiver's verdict. The source bytes are written over the target's old
/// contents; a stale tail beyond the source's length survives the writes,
/// and the finish verdict is success exactly when the received bytes
/// digest to the declared hash — in particular, an upload into a target
/// with no such tail always verifies. The second result is the sequence
/// of pipeline states the call drove through: every one of them keeps the
/// upload's concurrency ceiling.
pub fn upload_file(source: &Vec<u8>, target: &mut UploadDesc, chunk_size: u64, now_ms: u64) -> (r:
    (Result<StreamProgress, Error>, Ghost<Seq<Pipeline>>))
    requires
        old(target).wf(),
        chunk_size > 0,
    ensures
        final(target).wf(),
        final(target).token == old(target).token,
        final(target).data@ == spec_overlay(source@, old(target).data@, source@.len()),
        r.0 is Ok <==> spec_hex_of(sha3_256_of(source@)) == spec_hex_of(
            sha3_256_of(final(target).data@),
        ),
        r.0 is Err ==> (r.0->Err_0).is_integrity_error(),
        old(target).data@.len() <= source@.len() ==> final(target).data@ == source@ && r.0 is Ok,
        r.0 is Ok ==> {
            let p = r.0.unwrap();
            &&& p.total == source@.len()
            &&& p.current == source@.len()
            &&& progress_bounded(&p)
        },
        r.1@.len() > 0,
        r.1@.first().issued == 0 && r.1@.first().completed == 0,
        r.1@.last().completed == r.1@.last().total,
        forall|t: int|
            0 <= t < r.1@.len() ==> {
                &&& (#[trigger] r.1@[t]).wf()
                &&& r.1@[t].limit == UPLOAD_CONCURRENCY
                &&& r.1@[t].in_flight() <= UPLOAD_CONCURRENCY
            },
        forall|t: int|
            0 <= t < r.1@.len() - 1 ==> {
                &&& r.1@[t + 1].total == (#[trigger] r.1@[t]).total
                &&& ((r.1@[t + 1].issued == r.1@[t].issued + 1
                    && r.1@[t + 1].completed == r.1@[t].completed)
                    || (r.1@[t + 1].issued == r.1@[t].issued
                        && r.1@[t + 1].completed == r.1@[t].completed + 1))
            },
{
    let src_len_us: usize = source.len();
    let ghost dst0: Seq<u8> = target.data@;
    let (file_size, chunks) = get_chunks(source, chunk_size);
    // The sender's total starts unknown and tracks the settled bytes as
    // chunks are acknowledged.
    let mut progress = StreamProgress::new(now_ms);
    let n_chunks: u64 = crate::num_chunks(file_size, chunk_size);
    let mut pipe = Pipeline::new(n_chunks, UPLOAD_CONCURRENCY);
    let ghost mut trace: Seq<Pipeline> = seq![pipe];
    while !pipe.is_done()
        invariant
            target.wf(),
            chunk_size > 0,
            target.token == old(target).token,
            dst0 == old(target).data@,
            file_size == source@.len(),
            source@.len() <= usize::MAX,
            chunks@.len() == n_chunks,
            n_chunks == spec_num_chunks(source@.len(), chunk_size as nat),
            forall|m: int|
                0 <= m < chunks@.len() ==> {
                    &&& (#[trigger] chunks@[m]).offset == m * chunk_size
                    &&& chunks@[m].content@ == spec_chunk_of(
                        source@,
                        chunk_size as nat,
                        m as nat,
                    )
                },
            pipe.wf(),
            pipe.total == n_chunks,
            pipe.limit == UPLOAD_CONCURRENCY,
            pipe.issued == pipe.completed,
            target.data@ =~= spec_overlay(
                source@,
                dst0,
                spec_covered(source@.len(), chunk_size as nat, pipe.completed as nat),
            ),
            progress.total == progress.current,
            progress.current == spec_covered(
                source@.len(),
                chunk_size as nat,
                pipe.completed as nat,
            ),
            progress.start == now_ms,
            trace.len() > 0,
            trace.last() == pipe,
            trace.first().issued == 0 && trace.first().completed == 0,
            forall|t: int|
                0 <= t < trace.len() ==> {
                    &&& (#[trigger] trace[t]).wf()
                    &&& trace[t].limit == UPLOAD_CONCURRENCY
                    &&& trace[t].in_flight() <= UPLOAD_CONCURRENCY
                },
            forall|t: int|
                0 <= t < trace.len() - 1 ==> {
                    &&& trace[t + 1].total == (#[trigger] trace[t]).total
                    &&& ((trace[t + 1].issued == trace[t].issued + 1 && trace[t + 1].completed
                        == trace[t].completed) || (trace[t + 1].issued == trace[t].issued && trace[
                        t + 1].completed == trace[t].completed + 1))
                },
        decreases n_chunks - pipe.completed,
    {
        let i = pipe.issue();
        proof {
            trace = trace.push(pipe);
            lemma_chunk_in_range(source@.len(), chunk_size as nat, i as nat);
            lemma_covered_step(source@.len(), chunk_size as nat, i as nat);
        }
        let chunk = &chunks[i as usize];
        let got: u64 = chunk.content.len() as u64;
        let offset: u64 = chunk.offset;
        let res = target.handle_upload_chunk(chunk, now_ms);
        match res {
            Ok(()) => {
                progress.current = offset + got;
                progress.total = progress.current;
                pipe.complete();
                proof {
                    trace = trace.push(pipe);
                    assert(target.data@ =~= spec_overlay(
                        source@,
                        dst0,
                        spec_covered(source@.len(), chunk_size as nat, pipe.completed as nat),
                    ));
                }
            },
            Err(_) => {
                proof {
                    assert(false);
                }
            },
        }
    }
    proof {
        lemma_all_chunks_cover(source@.len(), chunk_size as nat);
        assert(target.data@ =~= spec_overlay(source@, dst0, source@.len()));
        if dst0.len() <= source@.len() {
            assert(target.data@ =~= source@);
        }
    }
    let digest = hash_file_sha256(source);
    let fin = target.handle_upload_finished(Some(&digest));
    match fin {
        Ok(()) => (Ok(progress), Ghost(trace)),
        Err(e) => (Err(e), Ghost(trace)),
    }
}

/// Open a write target for an incoming upload: an empty destination and a
/// freshly minted random token for the caller to publish it under.
pub fn open_for_upload(now_ms: u64) -> (d: UploadDesc)
    ensures
        d.wf(),
        d.data@.len() == 0,
        d.progress.total == 0,
        d.progress.current == 0,
        d.progress.start == now_ms,
        d.progress.upload_list@.len() == 0,
{
    UploadDesc { token: random_token(), data: Vec::new(), progress: StreamProgress::new(now_ms) }
}

} // verus!
