use vstd::prelude::*;
use crate::spec_num_chunks;

verus! {

/// The one piece of metadata a publisher reports for a file: its size in
/// bytes, fixed at the instant the file was published.
pub struct GftpMetadata {
    pub file_size: u64,
}

/// One contiguous byte range of a file, addressed by its starting offset,
/// transferred as one request/response unit.
pub struct GftpChunk {
    pub offset: u64,
    pub content: Vec<u8>,
}

/// How many bytes a read at `offset` may return when the caller asked for
/// `chunk_size`: the full request, clipped at the end of the file.
pub open spec fn spec_bytes_to_read(file_size: nat, offset: nat, chunk_size: nat) -> nat
    recommends
        offset < file_size,
{
    if file_size - offset < chunk_size {
        (file_size - offset) as nat
    } else {
        chunk_size
    }
}

/// The length of chunk `i` when a file of `file_size` bytes is cut into
/// pieces of `chunk_size`: every chunk is full except possibly the last.
pub open spec fn spec_chunk_len(file_size: nat, chunk_size: nat, i: nat) -> nat
    recommends
        chunk_size > 0,
        i < spec_num_chunks(file_size, chunk_size),
{
    spec_bytes_to_read(file_size, i * chunk_size, chunk_size)
}

/// The bytes of chunk `i` of `data`.
pub open spec fn spec_chunk_of(data: Seq<u8>, chunk_size: nat, i: nat) -> Seq<u8>
    recommends
        chunk_size > 0,
        i < spec_num_chunks(data.len(), chunk_size),
{
    data.subrange(
        (i * chunk_size) as int,
        (i * chunk_size + spec_chunk_len(data.len(), chunk_size, i)) as int,
    )
}

/// Every chunk index below the chunk count starts strictly inside the file,
/// and the chunk it names ends inside the file.
pub proof fn lemma_chunk_in_range(file_size: nat, chunk_size: nat, i: nat)
    requires
        chunk_size > 0,
        i < spec_num_chunks(file_size, chunk_size),
    ensures
        i * chunk_size < file_size,
        i * chunk_size + spec_chunk_len(file_size, chunk_size, i) <= file_size,
{
    let n = spec_num_chunks(file_size, chunk_size);
    let fs = file_size as int;
    let cs = chunk_size as int;
    // i <= n - 1, and (n - 1) * cs <= fs - 1, because n - 1 == (fs - 1) / cs.
    assert(fs >= 1) by {
        if file_size == 0 {
            assert(spec_num_chunks(0, chunk_size) == (chunk_size - 1) / cs);
            vstd::arithmetic::div_mod::lemma_basic_div(cs - 1, cs);
        }
    }
    assert(n - 1 == (fs - 1) / cs) by {
        vstd::arithmetic::div_mod::lemma_hoist_over_denominator(fs - 1, 1, chunk_size);
        assert(fs - 1 + 1 * cs == fs + cs - 1) by {
            vstd::arithmetic::mul::lemma_mul_basics(cs);
        }
    }
    assert((i as int) * cs <= ((fs - 1) / cs) * cs) by {
        vstd::arithmetic::mul::lemma_mul_inequality(i as int, (fs - 1) / cs, cs);
    }
    assert(((fs - 1) / cs) * cs <= fs - 1) by {
        vstd::arithmetic::div_mod::lemma_fundamental_div_mod(fs - 1, cs);
        vstd::arithmetic::div_mod::lemma_mod_division_less_than_divisor(fs - 1, cs);
        vstd::arithmetic::mul::lemma_mul_is_commutative(cs, (fs - 1) / cs);
    }
}

/// Clip a requested read size to the end of the file.
pub fn bytes_to_read(file_size: u64, offset: u64, chunk_size: u64) -> (n: u64)
    requires
        offset < file_size,
    ensures
        n == spec_bytes_to_read(file_size as nat, offset as nat, chunk_size as nat),
        n <= chunk_size,
        offset + n <= file_size,
{
    if file_size - offset < chunk_size {
        file_size - offset
    } else {
        chunk_size
    }
}

/// Cut `data` into successive chunks of `chunk_size` bytes (the last one
/// holds the remainder): the file size and the full chunk list, in offset
/// order.
pub fn get_chunks(data: &Vec<u8>, chunk_size: u64) -> (r: (u64, Vec<GftpChunk>))
    requires
        chunk_size > 0,
    ensures
        r.0 == data@.len(),
        r.1@.len() == spec_num_chunks(data@.len(), chunk_size as nat),
        forall|i: int|
            0 <= i < r.1@.len() ==> {
                &&& (#[trigger] r.1@[i]).offset == i * chunk_size
                &&& r.1@[i].content@ == spec_chunk_of(data@, chunk_size as nat, i as nat)
            },
{
    let len_us: usize = data.len();
    let file_size: u64 = len_us as u64;
    let n_chunks: u64 = crate::num_chunks(file_size, chunk_size);
    let mut chunks: Vec<GftpChunk> = Vec::new();
    let mut n: u64 = 0;
    while n < n_chunks
        invariant
            chunk_size > 0,
            data@.len() <= usize::MAX,
            file_size == data@.len(),
            n_chunks == spec_num_chunks(data@.len(), chunk_size as nat),
            n <= n_chunks,
            chunks@.len() == n,
            forall|i: int|
                0 <= i < n ==> {
                    &&& (#[trigger] chunks@[i]).offset == i * chunk_size
                    &&& chunks@[i].content@ == spec_chunk_of(data@, chunk_size as nat, i as nat)
                },
        decreases n_chunks - n,
    {
        proof {
            lemma_chunk_in_range(file_size as nat, chunk_size as nat, n as nat);
            vstd::arithmetic::mul::lemma_mul_is_commutative(n as int, chunk_size as int);
        }
        let offset: u64 = n * chunk_size;
        let len: u64 = bytes_to_read(file_size, offset, chunk_size);
        let mut content: Vec<u8> = Vec::new();
        let mut j: u64 = 0;
        while j < len
            invariant
                data@.len() <= usize::MAX,
                offset + len <= data@.len(),
                j <= len,
                content@ == data@.subrange(offset as int, offset + j),
            decreases len - j,
        {
            content.push(data[(offset + j) as usize]);
            proof {
                assert(content@ =~= data@.subrange(offset as int, offset + j + 1));
            }
            j = j + 1;
        }
        chunks.push(GftpChunk { offset, content });
        n = n + 1;
    }
    (file_size, chunks)
}

/// The bytes of a file after `c` was written at `offset`, with the
/// semantics of a seek past the end followed by a write: a gap between the
/// old end and `offset` is filled with zero bytes, overlapped bytes are
/// overwritten, and the file grows when the write ends past the old end.
pub open spec fn spec_write_at(d: Seq<u8>, offset: nat, c: Seq<u8>) -> Seq<u8> {
    let n = if offset + c.len() > d.len() {
        offset + c.len()
    } else {
        d.len()
    };
    Seq::new(
        n,
        |j: int|
            if offset <= j < offset + c.len() {
                c[j - offset]
            } else if j < d.len() {
                d[j]
            } else {
                0u8
            },
    )
}

/// Write `content` into `data` at `offset`, as a seek-then-write on a file
/// would: zero-fill any gap, overwrite, extend.
pub fn write_chunk(data: &mut Vec<u8>, offset: u64, content: &Vec<u8>)
    requires
        offset + content@.len() <= usize::MAX,
    ensures
        final(data)@ == spec_write_at(old(data)@, offset as nat, content@),
{
    while data.len() < offset as usize
        invariant
            offset + content@.len() <= usize::MAX,
            data@.len() <= offset || data@.len() == old(data)@.len(),
            data@ == old(data)@ + Seq::new((data@.len() - old(data)@.len()) as nat, |j: int| 0u8),
        decreases offset as int - data@.len(),
    {
        data.push(0u8);
        proof {
            assert(data@ =~= old(data)@ + Seq::new(
                (data@.len() - old(data)@.len()) as nat,
                |j: int| 0u8,
            ));
        }
    }
    let ghost padded: Seq<u8> = data@;
    let mut j: usize = 0;
    while j < content.len()
        invariant
            offset + content@.len() <= usize::MAX,
            offset <= padded.len(),
            j <= content@.len(),
            data@.len() == if offset + j > padded.len() {
                offset + j
            } else {
                padded.len() as int
            },
            forall|k: int|
                0 <= k < data@.len() ==> data@[k] == if offset <= k < offset + j {
                    content@[k - offset]
                } else {
                    padded[k]
                },
        decreases content@.len() - j,
    {
        let pos: usize = offset as usize + j;
        if pos < data.len() {
            data.set(pos, content[j]);
        } else {
            data.push(content[j]);
        }
        j = j + 1;
    }
    proof {
        assert(data@ =~= spec_write_at(old(data)@, offset as nat, content@));
    }
}

/// The first `k` chunks of `data`, concatenated in offset order.
pub open spec fn spec_concat_chunks(data: Seq<u8>, chunk_size: nat, k: nat) -> Seq<u8>
    decreases k,
{
    if k == 0 {
        Seq::<u8>::empty()
    } else {
        spec_concat_chunks(data, chunk_size, (k - 1) as nat) + spec_chunk_of(
            data,
            chunk_size,
            (k - 1) as nat,
        )
    }
}

/// How many bytes the first `k` chunks cover: `k` full chunks, clipped at
/// the end of the file.
pub open spec fn spec_covered(file_size: nat, chunk_size: nat, k: nat) -> nat {
    if k * chunk_size > file_size {
        file_size
    } else {
        k * chunk_size
    }
}

proof fn lemma_concat_chunks_prefix(data: Seq<u8>, chunk_size: nat, k: nat)
    requires
        chunk_size > 0,
        k <= spec_num_chunks(data.len(), chunk_size),
    ensures
        spec_concat_chunks(data, chunk_size, k) =~= data.take(
            spec_covered(data.len(), chunk_size, k) as int,
        ),
    decreases k,
{
    if k > 0 {
        let i = (k - 1) as nat;
        lemma_concat_chunks_prefix(data, chunk_size, i);
        lemma_chunk_in_range(data.len(), chunk_size, i);
        assert(k * chunk_size == i * chunk_size + chunk_size) by {
            vstd::arithmetic::mul::lemma_mul_is_distributive_add_other_way(
                chunk_size as int,
                i as int,
                1,
            );
        }
        assert(spec_covered(data.len(), chunk_size, i) == i * chunk_size);
        assert(spec_concat_chunks(data, chunk_size, k) =~= data.take(
            spec_covered(data.len(), chunk_size, k) as int,
        ));
    }
}

/// The chunk count covers the whole file: after the last chunk nothing is
/// left over.
pub proof fn lemma_all_chunks_cover(file_size: nat, chunk_size: nat)
    requires
        chunk_size > 0,
    ensures
        spec_covered(file_size, chunk_size, spec_num_chunks(file_size, chunk_size)) == file_size,
{
    let n = spec_num_chunks(file_size, chunk_size);
    let fs = file_size as int;
    let cs = chunk_size as int;
    assert(n * cs >= fs) by {
        vstd::arithmetic::div_mod::lemma_fundamental_div_mod(fs + cs - 1, cs);
        vstd::arithmetic::div_mod::lemma_mod_division_less_than_divisor(fs + cs - 1, cs);
        vstd::arithmetic::mul::lemma_mul_is_commutative(cs, n as int);
    }
}

/// One step of a transfer: chunk `i` starts exactly where the first `i`
/// chunks end, and carries coverage forward by its own length.
pub proof fn lemma_covered_step(file_size: nat, chunk_size: nat, i: nat)
    requires
        chunk_size > 0,
        i < spec_num_chunks(file_size, chunk_size),
    ensures
        spec_covered(file_size, chunk_size, i) == i * chunk_size,
        spec_covered(file_size, chunk_size, i + 1) == i * chunk_size + spec_chunk_len(
            file_size,
            chunk_size,
            i,
        ),
{
    lemma_chunk_in_range(file_size, chunk_size, i);
    assert((i + 1) * chunk_size == i * chunk_size + chunk_size) by {
        vstd::arithmetic::mul::lemma_mul_is_distributive_add_other_way(
            chunk_size as int,
            i as int,
            1,
        );
    }
}

/// Concatenating every chunk of a file, in offset order, reconstructs the
/// file exactly: the chunk cut of `get_chunks` loses and reorders nothing.
pub proof fn lemma_chunks_round_trip(data: Seq<u8>, chunk_size: nat)
    requires
        chunk_size > 0,
    ensures
        spec_concat_chunks(data, chunk_size, spec_num_chunks(data.len(), chunk_size)) =~= data,
{
    let n = spec_num_chunks(data.len(), chunk_size);
    lemma_concat_chunks_prefix(data, chunk_size, n);
    lemma_all_chunks_cover(data.len(), chunk_size);
}

/// The length of the final chunk: the remainder of the file size by the
/// chunk size when that is not zero, else one full chunk.
pub proof fn lemma_last_chunk_len(file_size: nat, chunk_size: nat)
    requires
        chunk_size > 0,
        file_size > 0,
    ensures
        spec_chunk_len(
            file_size,
            chunk_size,
            (spec_num_chunks(file_size, chunk_size) - 1) as nat,
        ) == if file_size % chunk_size == 0 {
            chunk_size
        } else {
            file_size % chunk_size
        },
{
    let n = spec_num_chunks(file_size, chunk_size);
    let fs = file_size as int;
    let cs = chunk_size as int;
    let q = fs / cs;
    let r = fs % cs;
    vstd::arithmetic::div_mod::lemma_fundamental_div_mod(fs, cs);
    vstd::arithmetic::div_mod::lemma_mod_division_less_than_divisor(fs, cs);
    vstd::arithmetic::div_mod::lemma_div_pos_is_pos(fs, cs);
    if r == 0 {
        assert(fs + cs - 1 == cs * q + (cs - 1));
        assert(n == q) by {
            vstd::arithmetic::div_mod::lemma_div_multiples_vanish_fancy(q, cs - 1, cs);
        }
        assert((n - 1) * cs == cs * q - cs) by {
            vstd::arithmetic::mul::lemma_mul_is_distributive_sub_other_way(cs, q, 1);
            vstd::arithmetic::mul::lemma_mul_is_commutative(q, cs);
        }
        assert(fs - (n - 1) * cs == cs);
    } else {
        assert(fs + cs - 1 == cs * (q + 1) + (r - 1)) by {
            vstd::arithmetic::mul::lemma_mul_is_distributive_add(cs, q, 1);
        }
        assert(n == q + 1) by {
            vstd::arithmetic::div_mod::lemma_div_multiples_vanish_fancy(q + 1, r - 1, cs);
        }
        assert((n - 1) * cs == cs * q) by {
            vstd::arithmetic::mul::lemma_mul_is_commutative(n - 1, cs);
        }
        assert(fs - (n - 1) * cs == r);
    }
    assert(n >= 1) by {
        if r == 0 {
            assert(cs * q > 0);
            assert(q > 0) by (nonlinear_arith)
                requires
                    cs * q > 0,
                    cs > 0,
            ;
        } else {
            vstd::arithmetic::div_mod::lemma_div_pos_is_pos(fs, cs);
        }
    }
    let i = (n - 1) as nat;
    assert(i * chunk_size == (n - 1) * cs);
    if r == 0 {
        assert(file_size - i * chunk_size == cs);
        assert(spec_chunk_len(file_size, chunk_size, i) == chunk_size);
    } else {
        assert(file_size - i * chunk_size == r);
        assert(spec_chunk_len(file_size, chunk_size, i) == r);
    }
}

} // verus!
