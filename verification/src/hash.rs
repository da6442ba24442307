use vstd::prelude::*;
use sha3::Digest;

verus! {

/// The SHA3-256 digest of a byte sequence: a value that depends on the
/// input bytes alone.
pub uninterp spec fn sha3_256_of(data: Seq<u8>) -> Seq<u8>;

/// Relies on sha3::Sha3_256 through digest::Digest::digest: the digest is
/// a pure function of the input bytes, 32 bytes (256 bits) long.
#[verifier::external_body]
fn sha3_256_digest(data: &Vec<u8>) -> (r: Vec<u8>)
    ensures
        r@ == sha3_256_of(data@),
        r@.len() == 32,
{
    sha3::Sha3_256::digest(data.as_slice()).to_vec()
}

/// The ASCII code of the lowercase hexadecimal digit for a value below 16.
pub open spec fn spec_hex_digit(v: u8) -> u8
    recommends
        v < 16,
{
    if v < 10 {
        (48 + v) as u8
    } else {
        (87 + v) as u8
    }
}

/// A byte sequence written out in lowercase hexadecimal: two digits per
/// byte, high half first.
pub open spec fn spec_hex_of(data: Seq<u8>) -> Seq<u8>
    decreases data.len(),
{
    if data.len() == 0 {
        Seq::<u8>::empty()
    } else {
        spec_hex_of(data.drop_last()) + seq![
            spec_hex_digit(data.last() / 16),
            spec_hex_digit(data.last() % 16),
        ]
    }
}

/// Two hexadecimal digits for each input byte.
pub proof fn lemma_hex_of_len(data: Seq<u8>)
    ensures
        spec_hex_of(data).len() == data.len() * 2,
    decreases data.len(),
{
    if data.len() > 0 {
        lemma_hex_of_len(data.drop_last());
    }
}

fn hex_digit(v: u8) -> (r: u8)
    requires
        v < 16,
    ensures
        r == spec_hex_digit(v),
{
    if v < 10 {
        48 + v
    } else {
        87 + v
    }
}

/// Write `data` out in lowercase hexadecimal.
pub fn to_hex(data: &Vec<u8>) -> (r: Vec<u8>)
    requires
        data@.len() * 2 <= usize::MAX,
    ensures
        r@ == spec_hex_of(data@),
{
    let mut r: Vec<u8> = Vec::new();
    let mut i: usize = 0;
    while i < data.len()
        invariant
            data@.len() * 2 <= usize::MAX,
            i <= data@.len(),
            r@ == spec_hex_of(data@.take(i as int)),
        decreases data@.len() - i,
    {
        let b = data[i];
        r.push(hex_digit(b / 16));
        r.push(hex_digit(b % 16));
        proof {
            let t = data@.take(i + 1);
            assert(t.drop_last() =~= data@.take(i as int));
            assert(t.last() == data@[i as int]);
            assert(r@ =~= spec_hex_of(t));
        }
        i = i + 1;
    }
    proof {
        assert(data@.take(data@.len() as int) =~= data@);
    }
    r
}

/// The whole-file content digest in its published form: the SHA3-256
/// digest of the bytes, written in lowercase hexadecimal — the download
/// token of a published file and the value checked when an upload ends.
pub fn hash_file_sha256(data: &Vec<u8>) -> (r: Vec<u8>)
    ensures
        r@ == spec_hex_of(sha3_256_of(data@)),
        r@.len() == 64,
{
    let digest = sha3_256_digest(data);
    proof {
        lemma_hex_of_len(digest@);
    }
    to_hex(&digest)
}

} // verus!
