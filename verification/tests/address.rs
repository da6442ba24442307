use gftp::address::{close_address, extract_url, file_bus_id, gftp_url, AddressError, NodeId};

fn node() -> NodeId {
    let mut bytes = Vec::new();
    for i in 0u8..20 {
        bytes.push(i * 10 + 3);
    }
    NodeId { bytes }
}

#[test]
fn url_has_the_documented_shape() {
    let n = NodeId { bytes: vec![0u8; 20] };
    let url = gftp_url(&b"token1".to_vec(), &n);
    let expected = format!("gftp://0x{}/token1", "0".repeat(40));
    assert_eq!(url, expected.as_bytes().to_vec());
}

#[test]
fn address_round_trip_keeps_peer_and_token() {
    let n = node();
    let token = b"5a3CdE0192xyzUVW".to_vec();
    let url = gftp_url(&token, &n);
    let (peer, got_token) = extract_url(&url).expect("encoded address must decode");
    assert_eq!(peer.bytes, n.bytes);
    assert_eq!(got_token, token);
}

#[test]
fn random_upload_token_round_trips_too() {
    let n = node();
    let token = gftp::store::random_token();
    let url = gftp_url(&token, &n);
    let (peer, got_token) = extract_url(&url).expect("encoded address must decode");
    assert_eq!(peer.bytes, n.bytes);
    assert_eq!(got_token, token);
}

#[test]
fn wrong_scheme_is_rejected() {
    let url = b"http://0x0000000000000000000000000000000000000000/tok".to_vec();
    assert_eq!(extract_url(&url), Err(AddressError::InvalidAddress));
}

#[test]
fn unparseable_host_is_rejected() {
    let bad_hex = b"gftp://0xZZ00000000000000000000000000000000000000/tok".to_vec();
    assert_eq!(extract_url(&bad_hex), Err(AddressError::InvalidAddress));
    let too_short = b"gftp://0x00/tok".to_vec();
    assert_eq!(extract_url(&too_short), Err(AddressError::InvalidAddress));
    let no_prefix = b"gftp://ab0000000000000000000000000000000000000000/tok".to_vec();
    assert_eq!(extract_url(&no_prefix), Err(AddressError::InvalidAddress));
}

#[test]
fn missing_token_is_rejected() {
    let no_path = b"gftp://0x0000000000000000000000000000000000000000".to_vec();
    assert_eq!(extract_url(&no_path), Err(AddressError::InvalidAddress));
    let empty_token = b"gftp://0x0000000000000000000000000000000000000000/".to_vec();
    assert_eq!(extract_url(&empty_token), Err(AddressError::InvalidAddress));
}

#[test]
fn query_and_fragment_are_cut_from_the_token() {
    let with_query = b"gftp://0x0000000000000000000000000000000000000000/tok?x=1".to_vec();
    let (_, token) = extract_url(&with_query).expect("the path still names a token");
    assert_eq!(token, b"tok".to_vec());
    let with_fragment = b"gftp://0x0000000000000000000000000000000000000000/tok#frag".to_vec();
    let (_, token) = extract_url(&with_fragment).expect("the path still names a token");
    assert_eq!(token, b"tok".to_vec());
}

#[test]
fn a_bare_query_is_no_token() {
    let url = b"gftp://0x0000000000000000000000000000000000000000/?x=1".to_vec();
    assert_eq!(extract_url(&url), Err(AddressError::InvalidAddress));
}

#[test]
fn a_host_with_a_port_is_rejected() {
    let url = b"gftp://0x0000000000000000000000000000000000000000:8080/tok".to_vec();
    assert_eq!(extract_url(&url), Err(AddressError::InvalidAddress));
}

#[test]
fn garbage_is_rejected_not_panicked_on() {
    assert!(extract_url(&Vec::new()).is_err());
    assert!(extract_url(&b"gftp".to_vec()).is_err());
    assert!(extract_url(&vec![0xffu8; 100]).is_err());
}

#[test]
fn bus_address_is_the_prefixed_token() {
    let addr = file_bus_id(&b"abc123".to_vec());
    assert_eq!(addr, b"/public/gftp/abc123".to_vec());
}

#[test]
fn close_address_names_the_final_segment() {
    let n = node();
    let url = gftp_url(&b"thetoken".to_vec(), &n);
    let addr = close_address(&url).expect("a well-formed URL has a final segment");
    assert_eq!(addr, b"/public/gftp/thetoken".to_vec());
}

#[test]
fn close_address_rejects_other_schemes() {
    assert!(close_address(&b"http://x/y".to_vec()).is_err());
    assert!(close_address(&b"gftp://nohost".to_vec()).is_err());
}

#[test]
fn node_id_mixed_case_hex_is_accepted() {
    let url = b"gftp://0xAb00000000000000000000000000000000000000/tok".to_vec();
    let (peer, _) = extract_url(&url).expect("mixed-case hex names a node");
    assert_eq!(peer.bytes[0], 0xab);
}
