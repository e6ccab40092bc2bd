use vstd::prelude::*;
use vstd::arithmetic::div_mod::lemma_fundamental_div_mod;
use crate::types::{CallerId, Proposal, ProposalV, voters_view};

verus! {

// A stored record is encoded as a self-describing byte string:
//   le16(|description|) ++ description
//   ++ le32(approve) ++ le32(reject) ++ le32(pass)
//   ++ one byte for the active flag (0 or 1)
//   ++ le16(|owner|) ++ owner
//   ++ le16(|voted|) ++ for each voter: le16(|voter|) ++ voter
// All integers are little-endian. The encoding of a record is rejected when
// it would exceed `MAX_RECORD_BYTES`.

pub open spec fn le16(x: nat) -> Seq<u8> {
    seq![(x % 256) as u8, ((x / 256) % 256) as u8]
}

pub open spec fn from_le16(b0: u8, b1: u8) -> nat {
    (b0 + 256 * b1) as nat
}

pub open spec fn le32(x: nat) -> Seq<u8> {
    le16(x % 65536) + le16((x / 65536) % 65536)
}

pub open spec fn from_le32(b0: u8, b1: u8, b2: u8, b3: u8) -> nat {
    (from_le16(b0, b1) + 65536 * from_le16(b2, b3)) as nat
}

pub proof fn lemma_le16_round_trip(x: nat)
    requires
        x < 65536,
    ensures
        le16(x).len() == 2,
        from_le16(le16(x)[0], le16(x)[1]) == x,
{
    lemma_fundamental_div_mod(x as int, 256);
    assert(x / 256 < 256) by (nonlinear_arith)
        requires
            x < 65536,
    ;
}

pub proof fn lemma_le32_round_trip(x: nat)
    requires
        x < 0x1_0000_0000,
    ensures
        le32(x).len() == 4,
        from_le32(le32(x)[0], le32(x)[1], le32(x)[2], le32(x)[3]) == x,
{
    lemma_fundamental_div_mod(x as int, 65536);
    assert(x / 65536 < 65536) by (nonlinear_arith)
        requires
            x < 0x1_0000_0000,
    ;
    lemma_le16_round_trip(x % 65536);
    lemma_le16_round_trip(x / 65536);
}

/// Bytes the voted list contributes to the encoding.
pub open spec fn voted_bytes(vs: Seq<Seq<u8>>) -> nat
    decreases vs.len(),
{
    if vs.len() == 0 {
        0
    } else {
        2 + vs[0].len() + voted_bytes(vs.drop_first())
    }
}

pub open spec fn encode_voters(vs: Seq<Seq<u8>>) -> Seq<u8>
    decreases vs.len(),
{
    if vs.len() == 0 {
        Seq::empty()
    } else {
        le16(vs[0].len()) + vs[0] + encode_voters(vs.drop_first())
    }
}

/// Exact size, in bytes, of the encoding of `p`.
pub open spec fn encoded_len(p: ProposalV) -> nat {
    19 + p.description.len() + p.owner.len() + voted_bytes(p.voted)
}

pub open spec fn active_byte(is_active: bool) -> u8 {
    if is_active {
        1
    } else {
        0
    }
}

pub open spec fn spec_encode(p: ProposalV) -> Seq<u8> {
    le16(p.description.len()) + p.description + le32(p.approve) + le32(p.reject) + le32(p.pass)
        + seq![active_byte(p.is_active)] + le16(p.owner.len()) + p.owner + le16(p.voted.len())
        + encode_voters(p.voted)
}

/// Every piece of `p` fits the fixed-width length and counter fields.
pub open spec fn fits(p: ProposalV) -> bool {
    &&& p.description.len() < 65536
    &&& p.owner.len() < 65536
    &&& p.voted.len() < 65536
    &&& p.approve < 0x1_0000_0000
    &&& p.reject < 0x1_0000_0000
    &&& p.pass < 0x1_0000_0000
    &&& forall|i: int| 0 <= i < p.voted.len() ==> #[trigger] p.voted[i].len() < 65536
}

pub proof fn lemma_encode_voters_len(vs: Seq<Seq<u8>>)
    ensures
        encode_voters(vs).len() == voted_bytes(vs),
    decreases vs.len(),
{
    if vs.len() != 0 {
        lemma_encode_voters_len(vs.drop_first());
    }
}

pub proof fn lemma_voted_bytes_bounds(vs: Seq<Seq<u8>>)
    ensures
        voted_bytes(vs) >= 2 * vs.len(),
        forall|i: int| 0 <= i < vs.len() ==> 2 + #[trigger] vs[i].len() <= voted_bytes(vs),
    decreases vs.len(),
{
    if vs.len() != 0 {
        lemma_voted_bytes_bounds(vs.drop_first());
        assert forall|i: int| 0 <= i < vs.len() implies 2 + #[trigger] vs[i].len()
            <= voted_bytes(vs) by {
            if i > 0 {
                assert(vs.drop_first()[i - 1] == vs[i]);
            }
        }
    }
}

pub proof fn lemma_voted_bytes_push(vs: Seq<Seq<u8>>, v: Seq<u8>)
    ensures
        voted_bytes(vs.push(v)) == voted_bytes(vs) + 2 + v.len(),
    decreases vs.len(),
{
    if vs.len() == 0 {
        assert(vs.push(v).len() == 1);
        assert(vs.push(v)[0] == v);
        assert(vs.push(v).drop_first() =~= Seq::<Seq<u8>>::empty());
        assert(voted_bytes(vs.push(v).drop_first()) == 0);
        assert(voted_bytes(vs) == 0);
    } else {
        assert(vs.push(v)[0] == vs[0]);
        assert(vs.push(v).drop_first() =~= vs.drop_first().push(v));
        lemma_voted_bytes_push(vs.drop_first(), v);
        assert(voted_bytes(vs.push(v)) == 2 + vs[0].len() + voted_bytes(
            vs.drop_first().push(v),
        ));
        assert(voted_bytes(vs) == 2 + vs[0].len() + voted_bytes(vs.drop_first()));
    }
}

/// A record that fits the storage bound fits every fixed-width field.
pub proof fn lemma_size_implies_fits(p: ProposalV)
    requires
        encoded_len(p) <= crate::MAX_RECORD_BYTES,
        p.approve < 0x1_0000_0000,
        p.reject < 0x1_0000_0000,
        p.pass < 0x1_0000_0000,
    ensures
        fits(p),
        p.voted.len() <= (crate::MAX_RECORD_BYTES - 19) / 2,
{
    lemma_voted_bytes_bounds(p.voted);
}

pub proof fn lemma_spec_encode_len(p: ProposalV)
    requires
        fits(p),
    ensures
        spec_encode(p).len() == encoded_len(p),
{
    lemma_encode_voters_len(p.voted);
}

// ---------------------------------------------------------------------------
// Decoding
// ---------------------------------------------------------------------------

/// Parses `n` voters starting at offset `i`; returns the voters and the
/// offset just past them.
pub open spec fn decode_voters(b: Seq<u8>, i: int, n: int) -> Option<(Seq<Seq<u8>>, int)>
    decreases n,
{
    if n <= 0 {
        Some((Seq::empty(), i))
    } else if i + 2 > b.len() {
        None
    } else {
        let l = from_le16(b[i], b[i + 1]) as int;
        if i + 2 + l > b.len() {
            None
        } else {
            match decode_voters(b, i + 2 + l, n - 1) {
                Some((vs, j)) => Some((seq![b.subrange(i + 2, i + 2 + l)] + vs, j)),
                None => None,
            }
        }
    }
}

pub open spec fn spec_decode(b: Seq<u8>) -> Option<ProposalV> {
    let n = b.len() as int;
    if n < 2 {
        None
    } else {
        let dl = from_le16(b[0], b[1]) as int;
        let i1 = 2 + dl;
        if i1 + 13 > n {
            None
        } else {
            let ab = b[i1 + 12];
            if ab != 0 && ab != 1 {
                None
            } else {
                let i2 = i1 + 13;
                if i2 + 2 > n {
                    None
                } else {
                    let ol = from_le16(b[i2], b[i2 + 1]) as int;
                    let i3 = i2 + 2 + ol;
                    if i3 + 2 > n {
                        None
                    } else {
                        let cnt = from_le16(b[i3], b[i3 + 1]) as int;
                        match decode_voters(b, i3 + 2, cnt) {
                            Some((vs, j)) => if j == n {
                                Some(
                                    ProposalV {
                                        description: b.subrange(2, i1),
                                        approve: from_le32(
                                            b[i1],
                                            b[i1 + 1],
                                            b[i1 + 2],
                                            b[i1 + 3],
                                        ),
                                        reject: from_le32(
                                            b[i1 + 4],
                                            b[i1 + 5],
                                            b[i1 + 6],
                                            b[i1 + 7],
                                        ),
                                        pass: from_le32(
                                            b[i1 + 8],
                                            b[i1 + 9],
                                            b[i1 + 10],
                                            b[i1 + 11],
                                        ),
                                        is_active: ab == 1,
                                        voted: vs,
                                        owner: b.subrange(i2 + 2, i3),
                                    },
                                )
                            } else {
                                None
                            },
                            None => None,
                        }
                    }
                }
            }
        }
    }
}

proof fn lemma_voters_round_trip(b: Seq<u8>, i: int, vs: Seq<Seq<u8>>)
    requires
        0 <= i <= b.len(),
        b.len() - i == voted_bytes(vs),
        b.subrange(i, b.len() as int) == encode_voters(vs),
        forall|k: int| 0 <= k < vs.len() ==> #[trigger] vs[k].len() < 65536,
    ensures
        decode_voters(b, i, vs.len() as int) == Some((vs, b.len() as int)),
    decreases vs.len(),
{
    let n = b.len() as int;
    let tail = b.subrange(i, n);
    if vs.len() == 0 {
        assert(i == n);
        assert(vs =~= Seq::<Seq<u8>>::empty());
    } else {
        let v0 = vs[0];
        let l0 = v0.len() as int;
        let rest = vs.drop_first();
        lemma_le16_round_trip(v0.len());
        lemma_encode_voters_len(rest);
        assert(encode_voters(vs) == le16(v0.len()) + v0 + encode_voters(rest));
        assert(b[i] == tail[0] && b[i + 1] == tail[1]);
        assert(tail[0] == le16(v0.len())[0] && tail[1] == le16(v0.len())[1]);
        assert(from_le16(b[i], b[i + 1]) as int == l0);
        assert(i + 2 + l0 <= n);
        assert(b.subrange(i + 2, i + 2 + l0) =~= v0) by {
            assert forall|k: int| 0 <= k < l0 implies b[i + 2 + k] == v0[k] by {
                assert(b[i + 2 + k] == tail[2 + k]);
                assert(tail[2 + k] == (le16(v0.len()) + v0 + encode_voters(rest))[2 + k]);
            }
        }
        assert(b.subrange(i + 2 + l0, n) =~= encode_voters(rest)) by {
            assert forall|k: int| 0 <= k < n - (i + 2 + l0) implies b[i + 2 + l0 + k]
                == encode_voters(rest)[k] by {
                assert(b[i + 2 + l0 + k] == tail[2 + l0 + k]);
                assert(tail[2 + l0 + k] == (le16(v0.len()) + v0 + encode_voters(rest))[2 + l0
                    + k]);
            }
        }
        assert(forall|k: int| 0 <= k < rest.len() ==> #[trigger] rest[k].len() < 65536) by {
            assert(forall|k: int| 0 <= k < rest.len() ==> rest[k] == vs[k + 1]);
        }
        lemma_voters_round_trip(b, i + 2 + l0, rest);
        assert(seq![b.subrange(i + 2, i + 2 + l0)] + rest =~= vs);
    }
}

/// Decoding inverts encoding: the storage round-trip is exact.
pub proof fn lemma_round_trip(p: ProposalV)
    requires
        fits(p),
    ensures
        spec_decode(spec_encode(p)) == Some(p),
{
    let b = spec_encode(p);
    let d = p.description.len() as int;
    let o = p.owner.len() as int;
    let i1 = 2 + d;
    let i2 = i1 + 13;
    let i3 = i2 + 2 + o;
    lemma_spec_encode_len(p);
    lemma_encode_voters_len(p.voted);
    let n = b.len() as int;
    assert(n == 19 + d + o + voted_bytes(p.voted));
    lemma_le16_round_trip(p.description.len());
    lemma_le16_round_trip(p.owner.len());
    lemma_le16_round_trip(p.voted.len());
    lemma_le32_round_trip(p.approve);
    lemma_le32_round_trip(p.reject);
    lemma_le32_round_trip(p.pass);
    let part_d = le16(p.description.len());
    let part_a = le32(p.approve);
    let part_r = le32(p.reject);
    let part_p = le32(p.pass);
    let part_f = seq![active_byte(p.is_active)];
    let part_o = le16(p.owner.len());
    let part_c = le16(p.voted.len());
    let part_v = encode_voters(p.voted);
    assert(b == part_d + p.description + part_a + part_r + part_p + part_f + part_o + p.owner
        + part_c + part_v);
    // The length header and the description.
    assert(b[0] == part_d[0] && b[1] == part_d[1]);
    assert(from_le16(b[0], b[1]) as int == d);
    assert(b.subrange(2, i1) =~= p.description) by {
        assert forall|k: int| 0 <= k < d implies b[2 + k] == p.description[k] by {}
    }
    // The three counters.
    assert(b[i1] == part_a[0] && b[i1 + 1] == part_a[1] && b[i1 + 2] == part_a[2] && b[i1 + 3]
        == part_a[3]);
    assert(from_le32(b[i1], b[i1 + 1], b[i1 + 2], b[i1 + 3]) == p.approve);
    assert(b[i1 + 4] == part_r[0] && b[i1 + 5] == part_r[1] && b[i1 + 6] == part_r[2] && b[i1 + 7]
        == part_r[3]);
    assert(from_le32(b[i1 + 4], b[i1 + 5], b[i1 + 6], b[i1 + 7]) == p.reject);
    assert(b[i1 + 8] == part_p[0] && b[i1 + 9] == part_p[1] && b[i1 + 10] == part_p[2] && b[i1
        + 11] == part_p[3]);
    assert(from_le32(b[i1 + 8], b[i1 + 9], b[i1 + 10], b[i1 + 11]) == p.pass);
    // The active flag.
    assert(b[i1 + 12] == active_byte(p.is_active));
    assert(b[i1 + 12] == 1 <==> p.is_active);
    // The owner.
    assert(b[i2] == part_o[0] && b[i2 + 1] == part_o[1]);
    assert(from_le16(b[i2], b[i2 + 1]) as int == o);
    assert(b.subrange(i2 + 2, i3) =~= p.owner) by {
        assert forall|k: int| 0 <= k < o implies b[i2 + 2 + k] == p.owner[k] by {}
    }
    // The voters.
    assert(b[i3] == part_c[0] && b[i3 + 1] == part_c[1]);
    assert(from_le16(b[i3], b[i3 + 1]) as int == p.voted.len() as int);
    assert(b.subrange(i3 + 2, n) =~= part_v) by {
        assert forall|k: int| 0 <= k < n - (i3 + 2) implies b[i3 + 2 + k] == part_v[k] by {}
    }
    lemma_voters_round_trip(b, i3 + 2, p.voted);
    assert(spec_decode(b) == Some(p)) by {
        let q = spec_decode(b)->Some_0;
        assert(q.description == p.description);
        assert(q.approve == p.approve);
        assert(q.reject == p.reject);
        assert(q.pass == p.pass);
        assert(q.is_active == p.is_active);
        assert(q.voted == p.voted);
        assert(q.owner == p.owner);
    }
}

// ---------------------------------------------------------------------------
// Executable encoder
// ---------------------------------------------------------------------------

fn push_le16(out: &mut Vec<u8>, x: u16)
    ensures
        final(out)@ == old(out)@ + le16(x as nat),
{
    let lo: u8 = (x % 256) as u8;
    let hi: u8 = (x / 256) as u8;
    out.push(lo);
    out.push(hi);
    proof {
        assert(x as nat / 256 < 256) by (nonlinear_arith)
            requires
                x <= 65535,
        ;
        assert(out@ =~= old(out)@ + le16(x as nat));
    }
}

fn push_le32(out: &mut Vec<u8>, x: u32)
    ensures
        final(out)@ == old(out)@ + le32(x as nat),
{
    let lo: u16 = (x % 65536) as u16;
    let hi: u16 = (x / 65536) as u16;
    push_le16(out, lo);
    push_le16(out, hi);
    proof {
        assert(x as nat / 65536 < 65536) by (nonlinear_arith)
            requires
                x < 0x1_0000_0000,
        ;
        assert(out@ =~= old(out)@ + le32(x as nat));
    }
}

fn push_bytes(out: &mut Vec<u8>, src: &Vec<u8>)
    ensures
        final(out)@ == old(out)@ + src@,
{
    let n = src.len();
    let mut k: usize = 0;
    proof {
        assert(out@ =~= old(out)@ + src@.take(0));
    }
    while k < n
        invariant
            k <= n,
            n == src@.len(),
            out@ == old(out)@ + src@.take(k as int),
        decreases n - k,
    {
        out.push(src[k]);
        k = k + 1;
        proof {
            assert(src@.take(k as int) =~= src@.take(k as int - 1).push(src@[k as int - 1]));
            assert(out@ =~= old(out)@ + src@.take(k as int));
        }
    }
    proof {
        assert(src@.take(n as int) =~= src@);
    }
}

/// The exact number of bytes `p` encodes to, or `None` when that size
/// exceeds the storage bound.
pub fn encoded_size_checked(p: &Proposal) -> (r: Option<usize>)
    ensures
        match r {
            Some(t) => t == encoded_len(p@) && t <= crate::MAX_RECORD_BYTES,
            None => encoded_len(p@) > crate::MAX_RECORD_BYTES,
        },
{
    if p.description.len() > crate::MAX_RECORD_BYTES {
        return None;
    }
    if p.owner.bytes.len() > crate::MAX_RECORD_BYTES {
        return None;
    }
    let mut total: usize = 19 + p.description.len() + p.owner.bytes.len();
    if total > crate::MAX_RECORD_BYTES {
        return None;
    }
    let ghost vv = p@.voted;
    let n = p.voted.len();
    let mut k: usize = 0;
    proof {
        assert(vv.skip(0) =~= vv);
    }
    while k < n
        invariant
            k <= n,
            n == p.voted@.len(),
            vv == p@.voted,
            vv.len() == n,
            total <= crate::MAX_RECORD_BYTES,
            encoded_len(p@) == total + voted_bytes(vv.skip(k as int)),
        decreases n - k,
    {
        let vlen = p.voted[k].bytes.len();
        proof {
            assert(vv[k as int] == p.voted@[k as int]@);
            assert(vv.skip(k as int)[0] == vv[k as int]);
            assert(vv.skip(k as int).drop_first() =~= vv.skip(k as int + 1));
        }
        if vlen > crate::MAX_RECORD_BYTES {
            return None;
        }
        let t2 = total + 2 + vlen;
        if t2 > crate::MAX_RECORD_BYTES {
            return None;
        }
        total = t2;
        k = k + 1;
    }
    proof {
        assert(vv.skip(n as int) =~= Seq::<Seq<u8>>::empty());
    }
    Some(total)
}

/// Encodes `p`, or returns `None` when the record would exceed the storage
/// bound. On success the bytes are exactly `spec_encode(p@)`.
pub fn encode_proposal(p: &Proposal) -> (r: Option<Vec<u8>>)
    ensures
        match r {
            Some(b) => encoded_len(p@) <= crate::MAX_RECORD_BYTES && b@ == spec_encode(p@)
                && b@.len() == encoded_len(p@),
            None => encoded_len(p@) > crate::MAX_RECORD_BYTES,
        },
{
    let total = match encoded_size_checked(p) {
        Some(t) => t,
        None => {
            return None;
        },
    };
    proof {
        lemma_size_implies_fits(p@);
        lemma_spec_encode_len(p@);
    }
    let mut out: Vec<u8> = Vec::new();
    push_le16(&mut out, p.description.len() as u16);
    push_bytes(&mut out, &p.description);
    push_le32(&mut out, p.approve);
    push_le32(&mut out, p.reject);
    push_le32(&mut out, p.pass);
    out.push(if p.is_active { 1u8 } else { 0u8 });
    push_le16(&mut out, p.owner.bytes.len() as u16);
    push_bytes(&mut out, &p.owner.bytes);
    push_le16(&mut out, p.voted.len() as u16);
    proof {
        assert(out@ =~= le16(p@.description.len()) + p@.description + le32(p@.approve) + le32(
            p@.reject,
        ) + le32(p@.pass) + seq![active_byte(p@.is_active)] + le16(p@.owner.len()) + p@.owner
            + le16(p@.voted.len()));
    }
    let ghost base = out@;
    let ghost vv = p@.voted;
    let n = p.voted.len();
    let mut k: usize = 0;
    proof {
        assert(vv.skip(0) =~= vv);
        assert(out@ + encode_voters(vv.skip(0)) =~= base + encode_voters(vv));
    }
    while k < n
        invariant
            k <= n,
            n == p.voted@.len(),
            vv == p@.voted,
            vv.len() == n,
            forall|i: int| 0 <= i < vv.len() ==> #[trigger] vv[i].len() < 65536,
            out@ + encode_voters(vv.skip(k as int)) == base + encode_voters(vv),
        decreases n - k,
    {
        let vlen = p.voted[k].bytes.len();
        proof {
            assert(vv[k as int] == p.voted@[k as int]@);
            assert(vv.skip(k as int)[0] == vv[k as int]);
            assert(vv.skip(k as int).drop_first() =~= vv.skip(k as int + 1));
        }
        let ghost before = out@;
        push_le16(&mut out, vlen as u16);
        push_bytes(&mut out, &p.voted[k].bytes);
        proof {
            assert(encode_voters(vv.skip(k as int)) == le16(vv[k as int].len()) + vv[k as int]
                + encode_voters(vv.skip(k as int + 1)));
            assert(out@ + encode_voters(vv.skip(k as int + 1)) =~= before + encode_voters(
                vv.skip(k as int),
            ));
        }
        k = k + 1;
    }
    proof {
        assert(vv.skip(n as int) =~= Seq::<Seq<u8>>::empty());
        assert(out@ =~= out@ + encode_voters(vv.skip(n as int)));
        assert(out@ =~= spec_encode(p@));
    }
    Some(out)
}

// ---------------------------------------------------------------------------
// Executable decoder
// ---------------------------------------------------------------------------

fn read_le16(b: &Vec<u8>, i: usize) -> (x: u16)
    requires
        i + 2 <= b@.len(),
    ensures
        x as nat == from_le16(b@[i as int], b@[i as int + 1]),
{
    let _n = b.len();
    let b0 = b[i];
    let b1 = b[i + 1];
    b0 as u16 + (b1 as u16) * 256
}

fn read_le32(b: &Vec<u8>, i: usize) -> (x: u32)
    requires
        i + 4 <= b@.len(),
    ensures
        x as nat == from_le32(
            b@[i as int],
            b@[i as int + 1],
            b@[i as int + 2],
            b@[i as int + 3],
        ),
{
    let _n = b.len();
    let lo = read_le16(b, i);
    let hi = read_le16(b, i + 2);
    lo as u32 + (hi as u32) * 65536
}

fn copy_range(b: &Vec<u8>, lo: usize, hi: usize) -> (r: Vec<u8>)
    requires
        lo <= hi,
        hi <= b@.len(),
    ensures
        r@ == b@.subrange(lo as int, hi as int),
{
    let mut r: Vec<u8> = Vec::new();
    let mut j: usize = lo;
    proof {
        assert(r@ =~= b@.subrange(lo as int, lo as int));
    }
    while j < hi
        invariant
            lo <= j <= hi,
            hi <= b@.len(),
            r@ == b@.subrange(lo as int, j as int),
        decreases hi - j,
    {
        r.push(b[j]);
        j = j + 1;
        proof {
            assert(b@.subrange(lo as int, j as int) =~= b@.subrange(lo as int, j as int - 1).push(
                b@[j as int - 1],
            ));
        }
    }
    r
}

spec fn dv_then(prefix: Seq<Seq<u8>>, r: Option<(Seq<Seq<u8>>, int)>) -> Option<
    (Seq<Seq<u8>>, int),
> {
    match r {
        Some((vs, j)) => Some((prefix + vs, j)),
        None => None,
    }
}

/// Decodes a record, returning `None` exactly when the bytes are not the
/// encoding of any record.
pub fn decode_proposal(b: &Vec<u8>) -> (r: Option<Proposal>)
    ensures
        match r {
            Some(p) => spec_decode(b@) == Some(p@),
            None => spec_decode(b@) is None,
        },
{
    let n = b.len();
    if n < 2 {
        return None;
    }
    let dl = read_le16(b, 0) as usize;
    if dl + 15 > n {
        return None;
    }
    let i1 = 2 + dl;
    let description = copy_range(b, 2, i1);
    let approve = read_le32(b, i1);
    let reject = read_le32(b, i1 + 4);
    let pass = read_le32(b, i1 + 8);
    let ab = b[i1 + 12];
    if ab > 1 {
        return None;
    }
    let i2 = i1 + 13;
    if n - i2 < 2 {
        return None;
    }
    let ol = read_le16(b, i2) as usize;
    if n - i2 < 4 {
        return None;
    }
    if ol > n - i2 - 4 {
        return None;
    }
    let i3 = i2 + 2 + ol;
    let owner = copy_range(b, i2 + 2, i3);
    let cnt = read_le16(b, i3);
    let ghost gstart = i3 as int + 2;
    let mut voters: Vec<CallerId> = Vec::new();
    let mut i: usize = i3 + 2;
    let mut k: u16 = 0;
    proof {
        assert(voters_view(voters@) =~= Seq::<Seq<u8>>::empty());
        let r0 = decode_voters(b@, gstart, cnt as int);
        if r0 is Some {
            let (vs, j) = r0->Some_0;
            assert(Seq::<Seq<u8>>::empty() + vs =~= vs);
        }
        assert(dv_then(voters_view(voters@), decode_voters(b@, i as int, cnt as int))
            == decode_voters(b@, gstart, cnt as int));
    }
    #[verifier::loop_isolation(false)]
    while k < cnt
        invariant
            gstart <= i as int <= n,
            n == b@.len(),
            k <= cnt,
            dv_then(voters_view(voters@), decode_voters(b@, i as int, (cnt - k) as int))
                == decode_voters(b@, gstart, cnt as int),
        decreases cnt - k,
    {
        let ghost m = (cnt - k) as int;
        let ghost gi = i as int;
        if n - i < 2 {
            proof {
                assert(decode_voters(b@, gi, m) is None);
            }
            return None;
        }
        let l = read_le16(b, i) as usize;
        if l > n - i - 2 {
            proof {
                assert(decode_voters(b@, gi, m) is None);
            }
            return None;
        }
        let v = copy_range(b, i + 2, i + 2 + l);
        let ghost pre = voters_view(voters@);
        let ghost head = b@.subrange(gi + 2, gi + 2 + l as int);
        voters.push(CallerId { bytes: v });
        proof {
            assert(voters_view(voters@) =~= pre.push(head));
            let rec = decode_voters(b@, gi + 2 + l as int, m - 1);
            if rec is Some {
                let (vs2, j) = rec->Some_0;
                assert(decode_voters(b@, gi, m) == Some((seq![head] + vs2, j)));
                assert(pre.push(head) + vs2 =~= pre + (seq![head] + vs2));
            } else {
                assert(decode_voters(b@, gi, m) is None);
            }
        }
        i = i + 2 + l;
        k = k + 1;
    }
    proof {
        assert(decode_voters(b@, i as int, 0) == Some((Seq::<Seq<u8>>::empty(), i as int)));
        assert(voters_view(voters@) + Seq::<Seq<u8>>::empty() =~= voters_view(voters@));
        assert(decode_voters(b@, gstart, cnt as int) == Some((voters_view(voters@), i as int)));
    }
    if i != n {
        return None;
    }
    let p = Proposal {
        description: description,
        approve: approve,
        reject: reject,
        pass: pass,
        is_active: ab == 1,
        voted: voters,
        owner: CallerId { bytes: owner },
    };
    proof {
        let q = spec_decode(b@)->Some_0;
        assert(q.description == p@.description);
        assert(q.voted == p@.voted);
        assert(q.owner == p@.owner);
        assert(spec_decode(b@) == Some(p@));
    }
    Some(p)
}

} // verus!
