use proposal_registry::codec::{decode_proposal, encode_proposal, encoded_size_checked};
use proposal_registry::types::{CallerId, Proposal};

fn sample() -> Proposal {
    Proposal {
        description: b"resurface the tennis court".to_vec(),
        approve: 3,
        reject: 70000,
        pass: 1,
        is_active: true,
        voted: vec![
            CallerId { bytes: b"alice".to_vec() },
            CallerId { bytes: b"bob".to_vec() },
            CallerId { bytes: vec![] },
        ],
        owner: CallerId { bytes: b"carol".to_vec() },
    }
}

#[test]
fn round_trip_exact() {
    let p = sample();
    let bytes = encode_proposal(&p).unwrap();
    let q = decode_proposal(&bytes).unwrap();
    assert_eq!(p, q);
}

#[test]
fn encoded_size_matches() {
    let p = sample();
    let bytes = encode_proposal(&p).unwrap();
    assert_eq!(encoded_size_checked(&p), Some(bytes.len()));
    // 19 fixed bytes, the description, the owner, and 2 + length per voter.
    assert_eq!(bytes.len(), 19 + 26 + 5 + (2 + 5) + (2 + 3) + (2 + 0));
}

#[test]
fn encode_rejects_oversize() {
    let mut p = sample();
    p.description = vec![b'x'; 5001];
    assert_eq!(encoded_size_checked(&p), None);
    assert!(encode_proposal(&p).is_none());
}

#[test]
fn encode_accepts_boundary() {
    let p = Proposal {
        description: vec![b'x'; 5000 - 19],
        approve: 0,
        reject: 0,
        pass: 0,
        is_active: false,
        voted: vec![],
        owner: CallerId { bytes: vec![] },
    };
    let bytes = encode_proposal(&p).unwrap();
    assert_eq!(bytes.len(), 5000);
    let mut over = p;
    over.description.push(b'x');
    assert!(encode_proposal(&over).is_none());
}

#[test]
fn decode_rejects_garbage() {
    assert!(decode_proposal(&vec![]).is_none());
    assert!(decode_proposal(&vec![0u8]).is_none());
    assert!(decode_proposal(&vec![255u8, 255u8, 0u8]).is_none());
    // A record with trailing bytes is not the encoding of anything.
    let mut bytes = encode_proposal(&sample()).unwrap();
    bytes.push(0);
    assert!(decode_proposal(&bytes).is_none());
    // A mangled active flag is rejected.
    let good = encode_proposal(&sample()).unwrap();
    let flag_at = 2 + 26 + 12;
    let mut bad = good.clone();
    bad[flag_at] = 2;
    assert!(decode_proposal(&bad).is_none());
}
