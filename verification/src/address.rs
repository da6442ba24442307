use vstd::prelude::*;
use crate::hash::{spec_hex_of, lemma_hex_of_len, to_hex};

verus! {

/// An ASCII letter or digit: the alphabet transfer tokens are drawn from,
/// all of it safe inside a URL path segment.
pub open spec fn is_token_byte(b: u8) -> bool {
    (65 <= b <= 90) || (97 <= b <= 122) || (48 <= b <= 57)
}

/// The ASCII code of a hexadecimal digit, either case.
pub open spec fn is_hex_digit(b: u8) -> bool {
    (48 <= b <= 57) || (97 <= b <= 102) || (65 <= b <= 70)
}

/// The value of a hexadecimal digit.
pub open spec fn spec_hex_val(b: u8) -> u8
    recommends
        is_hex_digit(b),
{
    if 48 <= b <= 57 {
        (b - 48) as u8
    } else if 97 <= b <= 102 {
        (b - 87) as u8
    } else {
        (b - 55) as u8
    }
}

/// The bytes named by a sequence of hexadecimal digits, two digits per
/// byte, high half first.
pub open spec fn spec_parse_hex(s: Seq<u8>) -> Seq<u8>
    recommends
        s.len() % 2 == 0,
    decreases s.len(),
{
    if s.len() < 2 {
        Seq::<u8>::empty()
    } else {
        spec_parse_hex(s.take(s.len() - 2)) + seq![
            (spec_hex_val(s[s.len() - 2]) * 16 + spec_hex_val(s[s.len() - 1])) as u8,
        ]
    }
}

/// Parsing undoes formatting: the hexadecimal text of any byte sequence
/// parses back to exactly that sequence.
pub proof fn lemma_parse_hex_of(b: Seq<u8>)
    ensures
        spec_parse_hex(spec_hex_of(b)) == b,
    decreases b.len(),
{
    lemma_hex_of_len(b);
    if b.len() == 0 {
        assert(spec_parse_hex(spec_hex_of(b)) =~= b);
    } else {
        let h = spec_hex_of(b);
        let prev = spec_hex_of(b.drop_last());
        lemma_hex_of_len(b.drop_last());
        lemma_parse_hex_of(b.drop_last());
        assert(h.take(h.len() - 2) =~= prev);
        let v = b.last();
        vstd::arithmetic::div_mod::lemma_fundamental_div_mod(v as int, 16);
        assert(spec_hex_val(crate::hash::spec_hex_digit(v / 16)) == v / 16);
        assert(spec_hex_val(crate::hash::spec_hex_digit(v % 16)) == v % 16);
        assert(spec_parse_hex(h) =~= b.drop_last() + seq![v]);
        assert(b.drop_last() + seq![v] =~= b);
    }
}

/// Every digit of hexadecimal text is a hexadecimal digit, and none of it
/// is a path separator.
pub proof fn lemma_hex_of_digits(b: Seq<u8>)
    ensures
        forall|i: int|
            0 <= i < spec_hex_of(b).len() ==> is_hex_digit(#[trigger] spec_hex_of(b)[i])
                && spec_hex_of(b)[i] != 47,
    decreases b.len(),
{
    if b.len() > 0 {
        lemma_hex_of_digits(b.drop_last());
        lemma_hex_of_len(b.drop_last());
    }
}

/// A node identifier: twenty raw bytes, written out as `0x` followed by
/// forty lowercase hexadecimal digits.
#[derive(Clone, PartialEq, Eq, Debug)]
pub struct NodeId {
    pub bytes: Vec<u8>,
}

impl NodeId {
    pub open spec fn wf(&self) -> bool {
        self.bytes@.len() == 20
    }
}

/// The textual form of a node identifier.
pub open spec fn spec_node_text(peer: Seq<u8>) -> Seq<u8> {
    seq![48u8, 120u8] + spec_hex_of(peer)
}

/// The bytes of `gftp://`, the one scheme this codec accepts.
pub open spec fn spec_gftp_prefix() -> Seq<u8> {
    seq![103u8, 102u8, 116u8, 112u8, 58u8, 47u8, 47u8]
}

/// A transfer address: the scheme, the peer that serves the resource, and
/// the token it is published under, as the final path segment.
pub open spec fn spec_encode(peer: Seq<u8>, token: Seq<u8>) -> Seq<u8> {
    spec_gftp_prefix() + spec_node_text(peer) + seq![47u8] + token
}

/// The index of the first occurrence of `b` in `s`.
pub open spec fn spec_find(s: Seq<u8>, b: u8) -> Option<int>
    decreases s.len(),
{
    if s.len() == 0 {
        None
    } else if s.first() == b {
        Some(0int)
    } else {
        match spec_find(s.drop_first(), b) {
            None => None,
            Some(i) => Some(i + 1),
        }
    }
}

/// What `spec_find` returns: the first index holding `b`, or nothing when
/// no index does.
pub proof fn lemma_find_char(s: Seq<u8>, b: u8)
    ensures
        match spec_find(s, b) {
            Some(i) => 0 <= i < s.len() && s[i] == b && forall|m: int| 0 <= m < i ==> s[m] != b,
            None => forall|m: int| 0 <= m < s.len() ==> s[m] != b,
        },
    decreases s.len(),
{
    if s.len() > 0 && s.first() != b {
        let t = s.drop_first();
        lemma_find_char(t, b);
        match spec_find(t, b) {
            Some(i) => {
                assert(s[i + 1] == t[i]);
                assert forall|m: int| 0 <= m < i + 1 implies s[m] != b by {
                    if m > 0 {
                        assert(t[m - 1] != b);
                    }
                }
            },
            None => {
                assert forall|m: int| 0 <= m < s.len() implies s[m] != b by {
                    if m > 0 {
                        assert(t[m - 1] != b);
                    }
                }
            },
        }
    }
}

/// `spec_find` is pinned by a witness: an index holding `b` with nothing
/// but other bytes before it is the found index.
pub proof fn lemma_find_at(s: Seq<u8>, b: u8, k: int)
    requires
        0 <= k < s.len(),
        s[k] == b,
        forall|m: int| 0 <= m < k ==> s[m] != b,
    ensures
        spec_find(s, b) == Some(k),
    decreases s.len(),
{
    if k > 0 {
        let t = s.drop_first();
        assert(t[k - 1] == s[k]);
        assert forall|m: int| 0 <= m < k - 1 implies t[m] != b by {
            assert(t[m] == s[m + 1]);
        }
        lemma_find_at(t, b, k - 1);
    }
}

/// A host segment that names a node: `0x` and forty hexadecimal digits.
pub open spec fn spec_valid_host(host: Seq<u8>) -> bool {
    &&& host.len() == 42
    &&& host[0] == 48
    &&& host[1] == 120
    &&& forall|i: int| 2 <= i < 42 ==> is_hex_digit(#[trigger] host[i])
}

/// A query or fragment marker: where the path — and with it the token —
/// ends.
pub open spec fn is_delim(b: u8) -> bool {
    b == 63 || b == 35
}

/// The index of the first query or fragment marker in `s`.
pub open spec fn spec_find_delim(s: Seq<u8>) -> Option<int>
    decreases s.len(),
{
    if s.len() == 0 {
        None
    } else if is_delim(s.first()) {
        Some(0int)
    } else {
        match spec_find_delim(s.drop_first()) {
            None => None,
            Some(i) => Some(i + 1),
        }
    }
}

/// What `spec_find_delim` returns: the first index holding a marker, or
/// nothing when no index does.
pub proof fn lemma_find_delim(s: Seq<u8>)
    ensures
        match spec_find_delim(s) {
            Some(i) => 0 <= i < s.len() && is_delim(s[i]) && forall|m: int|
                0 <= m < i ==> !is_delim(s[m]),
            None => forall|m: int| 0 <= m < s.len() ==> !is_delim(s[m]),
        },
    decreases s.len(),
{
    if s.len() > 0 && !is_delim(s.first()) {
        let t = s.drop_first();
        lemma_find_delim(t);
        match spec_find_delim(t) {
            Some(i) => {
                assert(s[i + 1] == t[i]);
                assert forall|m: int| 0 <= m < i + 1 implies !is_delim(s[m]) by {
                    if m > 0 {
                        assert(!is_delim(t[m - 1]));
                    }
                }
            },
            None => {
                assert forall|m: int| 0 <= m < s.len() implies !is_delim(s[m]) by {
                    if m > 0 {
                        assert(!is_delim(t[m - 1]));
                    }
                }
            },
        }
    }
}

/// `spec_find_delim` is pinned by a witness: an index holding a marker
/// with none before it is the found index.
pub proof fn lemma_find_delim_at(s: Seq<u8>, k: int)
    requires
        0 <= k < s.len(),
        is_delim(s[k]),
        forall|m: int| 0 <= m < k ==> !is_delim(s[m]),
    ensures
        spec_find_delim(s) == Some(k),
    decreases s.len(),
{
    if k > 0 {
        let t = s.drop_first();
        assert(t[k - 1] == s[k]);
        assert forall|m: int| 0 <= m < k - 1 implies !is_delim(t[m]) by {
            assert(t[m] == s[m + 1]);
        }
        lemma_find_delim_at(t, k - 1);
    }
}

/// What decoding an address yields: the peer's twenty bytes and the
/// token, or nothing when the scheme is not `gftp`, the host does not
/// name a node, or no non-empty token follows the host. The token is the
/// path with its leading separator stripped, cut before any query or
/// fragment; a query or fragment is dropped, never folded into the token.
/// The host segment must be the bare node identifier: a segment carrying
/// userinfo or a port does not name a node and makes the address invalid.
pub open spec fn spec_decode(url: Seq<u8>) -> Option<(Seq<u8>, Seq<u8>)> {
    if url.len() < 7 || url.take(7) != spec_gftp_prefix() {
        None
    } else {
        let rest = url.skip(7);
        match spec_find(rest, 47) {
            None => None,
            Some(k) => {
                let host = rest.take(k);
                let raw = rest.skip(k + 1);
                let token = match spec_find_delim(raw) {
                    None => raw,
                    Some(e) => raw.take(e),
                };
                if spec_valid_host(host) && token.len() > 0 {
                    Some((spec_parse_hex(host.skip(2)), token))
                } else {
                    None
                }
            },
        }
    }
}

/// The address-format failure: the scheme, host or token of a URL is not
/// what the codec requires.
#[derive(Clone, Copy, PartialEq, Eq, Structural, Debug)]
pub enum AddressError {
    InvalidAddress,
}

fn hex_val(b: u8) -> (r: u8)
    requires
        is_hex_digit(b),
    ensures
        r == spec_hex_val(b),
{
    if 48 <= b && b <= 57 {
        b - 48
    } else if 97 <= b && b <= 102 {
        b - 87
    } else {
        b - 55
    }
}

fn is_hex_digit_exec(b: u8) -> (r: bool)
    ensures
        r == is_hex_digit(b),
{
    (48 <= b && b <= 57) || (97 <= b && b <= 102) || (65 <= b && b <= 70)
}

/// Decode a transfer address: the node it names and the token under which
/// the resource is published. For an upload address the token is a random
/// string, not a content hash — nothing beyond uniqueness may be read into
/// it. Rejects, and never panics on, any URL whose scheme is not `gftp`,
/// whose host is not a node identifier, or that carries no token.
pub fn extract_url(url: &Vec<u8>) -> (r: Result<(NodeId, Vec<u8>), AddressError>)
    ensures
        r is Ok <==> spec_decode(url@) is Some,
        r is Ok ==> {
            &&& spec_decode(url@) == Some((r.unwrap().0.bytes@, r.unwrap().1@))
            &&& r.unwrap().0.wf()
        },
{
    if url.len() < 7 {
        return Err(AddressError::InvalidAddress);
    }
    if !(url[0] == 103 && url[1] == 102 && url[2] == 116 && url[3] == 112 && url[4] == 58
        && url[5] == 47 && url[6] == 47) {
        proof {
            assert(url@.take(7) != spec_gftp_prefix());
        }
        return Err(AddressError::InvalidAddress);
    }
    proof {
        assert(url@.take(7) =~= spec_gftp_prefix());
    }
    let ghost rest = url@.skip(7);
    // Find the separator between the host and the token.
    let mut j: usize = 7;
    let mut found: bool = false;
    while j < url.len() && !found
        invariant
            7 <= j <= url@.len(),
            url@.len() <= usize::MAX,
            rest == url@.skip(7),
            found ==> j < url@.len() && url@[j as int] == 47,
            forall|m: int| 7 <= m < j ==> url@[m] != 47,
        decreases url@.len() - j + (if found {
            0int
        } else {
            1int
        }),
    {
        if url[j] == 47 {
            found = true;
        } else {
            j = j + 1;
        }
    }
    if !found {
        proof {
            lemma_find_char(rest, 47);
            if spec_find(rest, 47) is Some {
                let i = spec_find(rest, 47).unwrap();
                assert(url@[i + 7] != 47);
            }
        }
        return Err(AddressError::InvalidAddress);
    }
    let ghost k = j - 7int;
    proof {
        assert(forall|m: int| 0 <= m < k ==> rest[m] != 47);
        lemma_find_at(rest, 47, k);
    }
    let ghost host = rest.take(k);
    // The host must be `0x` and forty hexadecimal digits.
    if j - 7 != 42 {
        proof {
            assert(host.len() != 42);
        }
        return Err(AddressError::InvalidAddress);
    }
    if !(url[7] == 48 && url[8] == 120) {
        proof {
            assert(host[0] == url@[7] && host[1] == url@[8]);
            assert(!spec_valid_host(host));
        }
        return Err(AddressError::InvalidAddress);
    }
    let mut bytes: Vec<u8> = Vec::new();
    let mut i: usize = 0;
    while i < 20
        invariant
            i <= 20,
            url@.len() <= usize::MAX,
            j == 49,
            url@.len() > j,
            host == rest.take(42int),
            rest == url@.skip(7),
            url@.len() >= 49,
            url@.take(7) == spec_gftp_prefix(),
            spec_find(rest, 47) == Some(42int),
            bytes@.len() == i,
            bytes@ =~= spec_parse_hex(host.skip(2).take(2 * i as int)),
            forall|m: int| 2 <= m < 2 + 2 * i ==> is_hex_digit(#[trigger] host[m]),
        decreases 20 - i,
    {
        let hi = url[9 + 2 * i];
        let lo = url[10 + 2 * i];
        proof {
            assert(host[2 + 2 * i as int] == url@[9 + 2 * i] && host[3 + 2 * i as int] == url@[10
                + 2 * i]);
        }
        if !(is_hex_digit_exec(hi) && is_hex_digit_exec(lo)) {
            proof {
                assert(!spec_valid_host(host));
            }
            return Err(AddressError::InvalidAddress);
        }
        let v: u8 = hex_val(hi) * 16 + hex_val(lo);
        bytes.push(v);
        proof {
            let part = host.skip(2).take(2 * (i + 1) as int);
            assert(part.take(part.len() - 2) =~= host.skip(2).take(2 * i as int));
            assert(part[part.len() - 2] == hi && part[part.len() - 1] == lo);
            assert(bytes@ =~= spec_parse_hex(part));
        }
        i = i + 1;
    }
    proof {
        assert(host.skip(2).take(40int) =~= host.skip(2));
        assert(spec_valid_host(host));
    }
    // The token is the path after the separator, cut before any query or
    // fragment; it must be non-empty.
    let ghost raw = rest.skip(k + 1);
    let mut token: Vec<u8> = Vec::new();
    let mut t: usize = j + 1;
    let mut delim: bool = false;
    while t < url.len() && !delim
        invariant
            j + 1 <= t <= url@.len(),
            url@.len() <= usize::MAX,
            j == 49,
            rest == url@.skip(7),
            raw == rest.skip(k + 1),
            k == 42int,
            host == rest.take(42int),
            url@.take(7) == spec_gftp_prefix(),
            spec_find(rest, 47) == Some(42int),
            spec_valid_host(host),
            bytes@.len() == 20,
            bytes@ == spec_parse_hex(host.skip(2)),
            delim ==> t < url@.len() && is_delim(url@[t as int]),
            forall|m: int| j + 1 <= m < t ==> !is_delim(url@[m]),
            token@ =~= url@.subrange(j + 1, t as int),
        decreases url@.len() - t + (if delim {
            0int
        } else {
            1int
        }),
    {
        let b = url[t];
        if b == 63 || b == 35 {
            delim = true;
        } else {
            token.push(b);
            t = t + 1;
        }
    }
    proof {
        assert(forall|m: int| 0 <= m < t - (j + 1) ==> raw[m] == url@[m + j + 1]);
        if delim {
            assert(raw[t - (j + 1) as int] == url@[t as int]);
            lemma_find_delim_at(raw, t - (j + 1) as int);
            assert(token@ =~= raw.take(t - (j + 1) as int));
        } else {
            lemma_find_delim(raw);
            if spec_find_delim(raw) is Some {
                let e = spec_find_delim(raw).unwrap();
                assert(!is_delim(url@[e + j + 1]));
            }
            assert(token@ =~= raw);
        }
    }
    if token.is_empty() {
        return Err(AddressError::InvalidAddress);
    }
    proof {
        assert(spec_decode(url@) == Some((bytes@, token@)));
    }
    Ok((NodeId { bytes }, token))
}

/// Format the address a resource published under `token` by `node` is
/// reached at.
pub fn gftp_url(token: &Vec<u8>, node: &NodeId) -> (r: Vec<u8>)
    requires
        node.wf(),
        token@.len() + 50 <= usize::MAX,
    ensures
        r@ == spec_encode(node.bytes@, token@),
{
    let mut r: Vec<u8> = Vec::new();
    r.push(103);
    r.push(102);
    r.push(116);
    r.push(112);
    r.push(58);
    r.push(47);
    r.push(47);
    r.push(48);
    r.push(120);
    proof {
        lemma_hex_of_len(node.bytes@);
    }
    let mut hex = to_hex(&node.bytes);
    r.append(&mut hex);
    r.push(47);
    r.extend_from_slice(token.as_slice());
    proof {
        assert(r@ =~= spec_encode(node.bytes@, token@));
    }
    r
}

/// Decoding an encoded address gives back exactly the peer and the token
/// that were encoded, for every twenty-byte peer identifier and every
/// non-empty token of URL-safe (alphanumeric) bytes.
pub proof fn lemma_address_round_trip(peer: Seq<u8>, token: Seq<u8>)
    requires
        peer.len() == 20,
        token.len() > 0,
        forall|i: int| 0 <= i < token.len() ==> is_token_byte(#[trigger] token[i]),
    ensures
        spec_decode(spec_encode(peer, token)) == Some((peer, token)),
{
    let url = spec_encode(peer, token);
    let hex = spec_hex_of(peer);
    lemma_hex_of_len(peer);
    lemma_hex_of_digits(peer);
    assert(url.take(7) =~= spec_gftp_prefix());
    let rest = url.skip(7);
    assert(rest =~= spec_node_text(peer) + seq![47u8] + token);
    assert(rest[42] == 47);
    assert(forall|m: int| 2 <= m < 42 ==> rest[m] == hex[m - 2]);
    assert(forall|m: int| 0 <= m < 42 ==> rest[m] != 47);
    lemma_find_at(rest, 47, 42);
    let host = rest.take(42);
    assert(forall|i: int| 2 <= i < 42 ==> is_hex_digit(#[trigger] host[i]));
    assert(spec_valid_host(host));
    assert(host.skip(2) =~= hex);
    lemma_parse_hex_of(peer);
    assert(rest.skip(43) =~= token);
    // An alphanumeric token holds no query or fragment marker, so the cut
    // before the first marker leaves it whole.
    lemma_find_delim(token);
    if spec_find_delim(token) is Some {
        let e = spec_find_delim(token).unwrap();
        assert(is_token_byte(token[e]));
    }
    assert(spec_find_delim(token) is None);
}

/// The bytes of `/public/gftp/`, the fixed prefix of every substrate
/// address this library binds or calls.
pub open spec fn spec_bus_prefix() -> Seq<u8> {
    seq![47u8, 112u8, 117u8, 98u8, 108u8, 105u8, 99u8, 47u8, 103u8, 102u8, 116u8, 112u8, 47u8]
}

/// The messaging-substrate address serving `token`: the deterministic
/// mapping both the publishing side and the calling side must share.
pub open spec fn spec_file_bus_id(token: Seq<u8>) -> Seq<u8> {
    spec_bus_prefix() + token
}

/// Derive the substrate address a token's handlers live at.
pub fn file_bus_id(token: &Vec<u8>) -> (r: Vec<u8>)
    requires
        token@.len() + 13 <= usize::MAX,
    ensures
        r@ == spec_file_bus_id(token@),
{
    let mut r: Vec<u8> = Vec::new();
    r.push(47);
    r.push(112);
    r.push(117);
    r.push(98);
    r.push(108);
    r.push(105);
    r.push(99);
    r.push(47);
    r.push(103);
    r.push(102);
    r.push(116);
    r.push(112);
    r.push(47);
    r.extend_from_slice(token.as_slice());
    proof {
        assert(r@ =~= spec_file_bus_id(token@));
    }
    r
}

/// The index of the last occurrence of `b` in `s`.
pub open spec fn spec_rfind(s: Seq<u8>, b: u8) -> Option<int>
    decreases s.len(),
{
    if s.len() == 0 {
        None
    } else if s.last() == b {
        Some(s.len() - 1)
    } else {
        spec_rfind(s.drop_last(), b)
    }
}

/// The substrate address to unbind when the transfer published at `url`
/// is closed: the address derived from the URL's final path segment.
/// Deliberately accepted only for this codec's own scheme: the library
/// binds handlers under `gftp` addresses alone, so a URL of any other
/// scheme names nothing it could unbind and is rejected instead of having
/// a segment blindly stripped out of it.
pub fn close_address(url: &Vec<u8>) -> (r: Result<Vec<u8>, AddressError>)
    requires
        url@.len() + 13 <= usize::MAX,
    ensures
        r is Ok <==> (url@.len() >= 7 && url@.take(7) == spec_gftp_prefix() && spec_rfind(
            url@.skip(7),
            47,
        ) is Some),
        r is Ok ==> r.unwrap()@ == spec_file_bus_id(
            url@.skip(7).skip(spec_rfind(url@.skip(7), 47).unwrap() + 1),
        ),
{
    if url.len() < 7 {
        return Err(AddressError::InvalidAddress);
    }
    if !(url[0] == 103 && url[1] == 102 && url[2] == 116 && url[3] == 112 && url[4] == 58
        && url[5] == 47 && url[6] == 47) {
        proof {
            assert(url@.take(7) != spec_gftp_prefix());
        }
        return Err(AddressError::InvalidAddress);
    }
    proof {
        assert(url@.take(7) =~= spec_gftp_prefix());
    }
    let ghost rest = url@.skip(7);
    let mut j: usize = url.len();
    let mut found: bool = false;
    while j > 7 && !found
        invariant
            7 <= j <= url@.len(),
            url@.len() <= usize::MAX,
            rest == url@.skip(7),
            found ==> j >= 7 && j < url@.len() && url@[j as int] == 47,
            forall|m: int| j <= m < url@.len() && !(found && m == j) ==> url@[m] != 47,
        decreases j + (if found {
            0int
        } else {
            1int
        }),
    {
        if url[j - 1] == 47 {
            j = j - 1;
            found = true;
        } else {
            j = j - 1;
        }
    }
    proof {
        lemma_rfind_facts(rest, 47);
    }
    if !found {
        proof {
            if spec_rfind(rest, 47) is Some {
                let i = spec_rfind(rest, 47).unwrap();
                assert(url@[i + 7] != 47);
            }
        }
        return Err(AddressError::InvalidAddress);
    }
    proof {
        let k = j - 7int;
        assert(rest[k] == 47);
        assert(forall|m: int| k < m < rest.len() ==> rest[m] != 47);
        lemma_rfind_at(rest, 47, k);
    }
    let mut segment: Vec<u8> = Vec::new();
    let mut t: usize = j + 1;
    while t < url.len()
        invariant
            j + 1 <= t <= url@.len(),
            url@.len() <= usize::MAX,
            segment@ =~= url@.subrange(j + 1, t as int),
        decreases url@.len() - t,
    {
        segment.push(url[t]);
        t = t + 1;
    }
    proof {
        assert(segment@ =~= rest.skip(j - 7 + 1));
        assert(segment@.len() + 13 <= usize::MAX);
    }
    Ok(file_bus_id(&segment))
}

/// What `spec_rfind` returns: the last index holding `b`, or nothing when
/// no index does.
pub proof fn lemma_rfind_facts(s: Seq<u8>, b: u8)
    ensures
        match spec_rfind(s, b) {
            Some(i) => 0 <= i < s.len() && s[i] == b && forall|m: int| i < m < s.len() ==> s[m]
                != b,
            None => forall|m: int| 0 <= m < s.len() ==> s[m] != b,
        },
    decreases s.len(),
{
    if s.len() > 0 && s.last() != b {
        let t = s.drop_last();
        lemma_rfind_facts(t, b);
        match spec_rfind(t, b) {
            Some(i) => {
                assert(s[i] == t[i]);
                assert forall|m: int| i < m < s.len() implies s[m] != b by {
                    if m < s.len() - 1 {
                        assert(t[m] != b);
                    }
                }
            },
            None => {
                assert forall|m: int| 0 <= m < s.len() implies s[m] != b by {
                    if m < s.len() - 1 {
                        assert(t[m] != b);
                    }
                }
            },
        }
    }
}

/// `spec_rfind` is pinned by a witness: an index holding `b` with nothing
/// but other bytes after it is the found index.
pub proof fn lemma_rfind_at(s: Seq<u8>, b: u8, k: int)
    requires
        0 <= k < s.len(),
        s[k] == b,
        forall|m: int| k < m < s.len() ==> s[m] != b,
    ensures
        spec_rfind(s, b) == Some(k),
    decreases s.len(),
{
    if k < s.len() - 1 {
        let t = s.drop_last();
        assert(t[k] == s[k]);
        assert forall|m: int| k < m < t.len() implies t[m] != b by {
            assert(t[m] == s[m]);
        }
        lemma_rfind_at(t, b, k);
    }
}

} // verus!
