//! The deterministic wire codec: fixed little-endian integers and
//! length-prefixed byte strings compose into votes, certificates and blocks.
//! Every decoder recovers exactly what the matching encoder wrote, whatever
//! follows it in the buffer.

use vstd::prelude::*;
use crate::traits::Blk;
use crate::types::{Aggregates, AggregatesView, Choke, ChokeQC, ChokeQcView, ChokeView, PreCommitQC,
    PreVoteQC, QcView, TestBlock, TestBlockView, Vote, VoteView};

verus! {

/// 256 to the power `k`.
pub open spec fn pow256(k: nat) -> nat
    decreases k,
{
    if k == 0 {
        1
    } else {
        256 * pow256((k - 1) as nat)
    }
}

/// The `k` little-endian base-256 digits of `x`.
pub open spec fn le_bytes(x: nat, k: nat) -> Seq<u8>
    decreases k,
{
    if k == 0 {
        Seq::empty()
    } else {
        seq![(x % 256) as u8] + le_bytes(x / 256, (k - 1) as nat)
    }
}

/// The number the little-endian digits spell.
pub open spec fn from_le(s: Seq<u8>) -> nat
    decreases s.len(),
{
    if s.len() == 0 {
        0
    } else {
        s[0] as nat + 256 * from_le(s.drop_first())
    }
}

/// Digits spell back the number they came from.
pub proof fn lemma_le_round_trip(x: nat, k: nat)
    requires
        x < pow256(k),
    ensures
        le_bytes(x, k).len() == k,
        from_le(le_bytes(x, k)) == x,
    decreases k,
{
    if k > 0 {
        assert(x / 256 < pow256((k - 1) as nat)) by {
            assert(pow256(k) == 256 * pow256((k - 1) as nat));
            if x / 256 >= pow256((k - 1) as nat) {
                assert(x >= 256 * (x / 256)) by (nonlinear_arith)
                    requires
                        x >= 0,
                ;
                assert(256 * (x / 256) >= 256 * pow256((k - 1) as nat)) by (nonlinear_arith)
                    requires
                        x / 256 >= pow256((k - 1) as nat),
                ;
            }
        }
        lemma_le_round_trip(x / 256, (k - 1) as nat);
        assert(le_bytes(x, k).drop_first() =~= le_bytes(x / 256, (k - 1) as nat));
        assert(le_bytes(x, k)[0] == (x % 256) as u8);
    }
}

/// A number spelled by `k` digits stays below `256^k`.
pub proof fn lemma_from_le_bound(s: Seq<u8>)
    ensures
        from_le(s) < pow256(s.len()),
    decreases s.len(),
{
    if s.len() > 0 {
        lemma_from_le_bound(s.drop_first());
        assert(from_le(s) == s[0] as nat + 256 * from_le(s.drop_first()));
        assert(256 * from_le(s.drop_first()) <= 256 * (pow256((s.len() - 1) as nat) - 1))
            by (nonlinear_arith)
            requires
                from_le(s.drop_first()) <= pow256((s.len() - 1) as nat) - 1,
        ;
        assert(pow256(s.len()) == 256 * pow256((s.len() - 1) as nat));
    }
}

/// `u64` values fit eight digits.
pub proof fn lemma_pow256_8()
    ensures
        pow256(8) == 0x1_0000_0000_0000_0000,
{
    assert(pow256(8) == 0x1_0000_0000_0000_0000) by {
        reveal_with_fuel(pow256, 9);
    }
}

/// The eight-byte little-endian encoding of a `u64`.
pub open spec fn spec_encode_u64(x: int) -> Seq<u8> {
    le_bytes(x as nat, 8)
}

/// Appends the eight-byte little-endian encoding of `x`.
pub fn encode_u64(out: &mut Vec<u8>, x: u64)
    ensures
        final(out)@ == old(out)@ + spec_encode_u64(x as int),
{
    let ghost base = out@;
    let mut cur: u64 = x;
    let mut i: usize = 0;
    proof {
        assert(base + le_bytes(x as nat, 8) =~= base + le_bytes(x as nat, 8));
    }
    while i < 8
        invariant
            i <= 8,
            out@ + le_bytes(cur as nat, (8 - i) as nat) =~= base + le_bytes(x as nat, 8),
        decreases 8 - i,
    {
        let ghost pre = out@;
        let b: u8 = (cur % 256) as u8;
        out.push(b);
        proof {
            assert(le_bytes(cur as nat, (8 - i) as nat) == seq![(cur as nat % 256) as u8]
                + le_bytes(cur as nat / 256, (8 - (i + 1)) as nat));
            assert(out@ + le_bytes((cur / 256) as nat, (8 - (i + 1)) as nat) =~= pre + le_bytes(
                cur as nat,
                (8 - i) as nat,
            ));
        }
        cur = cur / 256;
        i += 1;
    }
    proof {
        assert(le_bytes(cur as nat, 0) =~= Seq::<u8>::empty());
        assert(out@ =~= out@ + le_bytes(cur as nat, 0));
        assert(out@ =~= base + le_bytes(x as nat, 8));
    }
}

/// Reads the eight-byte little-endian `u64` at `pos`.
pub fn decode_u64(data: &Vec<u8>, pos: usize) -> (r: Option<(u64, usize)>)
    ensures
        match r {
            Some((x, p)) => p == pos + 8 && p <= data@.len() && data@.subrange(
                pos as int,
                p as int,
            ) == spec_encode_u64(x as int),
            None => pos + 8 > data@.len(),
        },
{
    if pos > data.len() || data.len() - pos < 8 {
        return None;
    }
    let dlen = data.len();
    let mut acc: u64 = 0;
    let mut i: usize = 8;
    let ghost s = data@.subrange(pos as int, pos + 8);
    proof {
        assert(s.skip(8) =~= Seq::<u8>::empty());
        lemma_pow256_8();
    }
    while i > 0
        invariant
            i <= 8,
            pos + 8 <= dlen,
            dlen == data@.len(),
            s == data@.subrange(pos as int, pos + 8),
            acc as nat == from_le(s.skip(i as int)),
            (acc as nat) < pow256((8 - i) as nat),
        decreases i,
    {
        proof {
            assert(s.skip(i - 1).drop_first() =~= s.skip(i as int));
            assert(s.skip(i - 1)[0] == s[i - 1]);
            assert(pow256((8 - (i - 1)) as nat) == 256 * pow256((8 - i) as nat));
            assert(acc as nat * 256 <= (pow256((8 - i) as nat) - 1) * 256) by (nonlinear_arith)
                requires
                    acc as nat <= pow256((8 - i) as nat) - 1,
            ;
            assert((pow256((8 - i) as nat) - 1) * 256 + 255 < 256 * pow256((8 - i) as nat))
                by (nonlinear_arith);
            lemma_pow256_le(( 8 - (i - 1)) as nat, 8);
            lemma_pow256_8();
        }
        let b = data[pos + (i - 1)];
        proof {
            assert(s[i - 1] == data@[pos + (i - 1)]);
        }
        acc = acc * 256 + (b as u64);
        i -= 1;
    }
    proof {
        assert(s.skip(0) =~= s);
        lemma_from_le_bound(s);
        lemma_pow256_8();
        lemma_le_round_trip(acc as nat, 8);
        assert(from_le(le_bytes(acc as nat, 8)) == from_le(s));
        lemma_le_from_le(s);
        assert(s =~= le_bytes(acc as nat, 8));
    }
    Some((acc, pos + 8))
}

/// `pow256` is monotone.
pub proof fn lemma_pow256_le(a: nat, b: nat)
    requires
        a <= b,
    ensures
        pow256(a) <= pow256(b),
    decreases b,
{
    if a < b {
        lemma_pow256_le(a, (b - 1) as nat);
        assert(pow256(b) == 256 * pow256((b - 1) as nat));
        assert(pow256((b - 1) as nat) <= 256 * pow256((b - 1) as nat)) by (nonlinear_arith)
            requires
                pow256((b - 1) as nat) >= 0,
        ;
    }
}

/// Whether `enc` sits in `data` at `pos`.
pub open spec fn encoded_at(data: Seq<u8>, pos: int, enc: Seq<u8>) -> bool {
    0 <= pos && pos + enc.len() <= data.len() && data.subrange(pos, pos + enc.len()) == enc
}

/// An encoding made of two parts sits in the buffer part by part.
pub proof fn lemma_encoded_at_concat(data: Seq<u8>, pos: int, e1: Seq<u8>, e2: Seq<u8>)
    requires
        encoded_at(data, pos, e1 + e2),
    ensures
        encoded_at(data, pos, e1),
        encoded_at(data, pos + e1.len(), e2),
{
    assert forall|k: int| 0 <= k < e1.len() implies data.subrange(pos, pos + e1.len())[k]
        == e1[k] by {
        assert(data.subrange(pos, pos + (e1 + e2).len())[k] == (e1 + e2)[k]);
    }
    assert(data.subrange(pos, pos + e1.len()) =~= e1);
    assert forall|k: int| 0 <= k < e2.len() implies data.subrange(
        pos + e1.len(),
        pos + e1.len() + e2.len(),
    )[k] == e2[k] by {
        assert(data.subrange(pos, pos + (e1 + e2).len())[e1.len() + k] == (e1 + e2)[e1.len() + k]);
    }
    assert(data.subrange(pos + e1.len(), pos + e1.len() + e2.len()) =~= e2);
}

/// A digit string always has its requested length.
pub proof fn lemma_le_bytes_len(x: nat, k: nat)
    ensures
        le_bytes(x, k).len() == k,
    decreases k,
{
    if k > 0 {
        lemma_le_bytes_len(x / 256, (k - 1) as nat);
    }
}

/// Two eight-byte encodings agree only on the same number.
pub proof fn lemma_encode_u64_injective(x: int, y: int)
    requires
        0 <= x < 0x1_0000_0000_0000_0000,
        0 <= y < 0x1_0000_0000_0000_0000,
        spec_encode_u64(x) == spec_encode_u64(y),
    ensures
        x == y,
{
    lemma_pow256_8();
    lemma_le_round_trip(x as nat, 8);
    lemma_le_round_trip(y as nat, 8);
}

/// The length-prefixed encoding of a byte string.
pub open spec fn spec_encode_bytes(b: Seq<u8>) -> Seq<u8> {
    spec_encode_u64(b.len() as int) + b
}

/// Appends the length-prefixed encoding of `b`.
pub fn encode_bytes(out: &mut Vec<u8>, b: &Vec<u8>)
    ensures
        final(out)@ == old(out)@ + spec_encode_bytes(b@),
{
    let len = b.len();
    encode_u64(out, len as u64);
    let ghost mid = out@;
    let mut i: usize = 0;
    while i < len
        invariant
            i <= len,
            len == b@.len(),
            out@ == mid + b@.take(i as int),
        decreases len - i,
    {
        out.push(b[i]);
        proof {
            assert(mid + b@.take(i as int) + seq![b@[i as int]] =~= mid + b@.take(i + 1));
        }
        i += 1;
    }
    proof {
        assert(b@.take(len as int) =~= b@);
        assert(old(out)@ + spec_encode_u64(len as int) + b@ =~= old(out)@ + spec_encode_bytes(b@));
    }
}

/// Reads the length-prefixed byte string at `pos`: exactly the string whose
/// encoding sits there.
pub fn decode_bytes(data: &Vec<u8>, pos: usize) -> (r: Option<(Vec<u8>, usize)>)
    ensures
        r matches Some((b, p)) ==> pos <= p <= data@.len() && data@.subrange(pos as int, p as int)
            == spec_encode_bytes(b@),
        forall|w: Seq<u8>|
            w.len() < 0x1_0000_0000_0000_0000 && encoded_at(
                data@,
                pos as int,
                #[trigger] spec_encode_bytes(w),
            ) ==> (r matches Some((b, p)) && b@ == w && p == pos + spec_encode_bytes(w).len()),
{
    let dlen = data.len();
    let first = decode_u64(data, pos);
    match first {
        Some((len, p0)) => {
            if len > (dlen - p0) as u64 {
                proof {
                    assert forall|w: Seq<u8>|
                        !(w.len() < 0x1_0000_0000_0000_0000 && encoded_at(
                            data@,
                            pos as int,
                            #[trigger] spec_encode_bytes(w),
                        )) by {
                        if w.len() < 0x1_0000_0000_0000_0000 && encoded_at(
                            data@,
                            pos as int,
                            spec_encode_bytes(w),
                        ) {
                            lemma_le_bytes_len(w.len(), 8);
                            lemma_encoded_at_concat(
                                data@,
                                pos as int,
                                spec_encode_u64(w.len() as int),
                                w,
                            );
                            lemma_pow256_8();
                            lemma_encode_u64_injective(len as int, w.len() as int);
                        }
                    }
                }
                return None;
            }
            let take_n = len as usize;
            let mut b: Vec<u8> = Vec::new();
            let mut i: usize = 0;
            while i < take_n
                invariant
                    i <= take_n,
                    p0 + take_n <= dlen,
                    dlen == data@.len(),
                    b@ == data@.subrange(p0 as int, p0 + i),
                decreases take_n - i,
            {
                b.push(data[p0 + i]);
                proof {
                    assert(data@.subrange(p0 as int, p0 + i) + seq![data@[p0 + i]] =~= data@.subrange(
                        p0 as int,
                        p0 + i + 1,
                    ));
                }
                i += 1;
            }
            proof {
                assert(data@.subrange(pos as int, p0 + take_n) =~= data@.subrange(
                    pos as int,
                    p0 as int,
                ) + data@.subrange(p0 as int, p0 + take_n));
                assert(b@.len() == len as int);
                assert(data@.subrange(pos as int, p0 + take_n) =~= spec_encode_bytes(b@));
                assert forall|w: Seq<u8>|
                    w.len() < 0x1_0000_0000_0000_0000 && encoded_at(
                        data@,
                        pos as int,
                        #[trigger] spec_encode_bytes(w),
                    ) implies b@ == w && p0 + take_n == pos + spec_encode_bytes(w).len() by {
                    lemma_le_bytes_len(w.len(), 8);
                    lemma_encoded_at_concat(data@, pos as int, spec_encode_u64(w.len() as int), w);
                    lemma_pow256_8();
                    lemma_encode_u64_injective(len as int, w.len() as int);
                    assert(w =~= data@.subrange(p0 as int, p0 + w.len()));
                }
            }
            Some((b, p0 + take_n))
        },
        None => {
            proof {
                assert forall|w: Seq<u8>|
                    !(w.len() < 0x1_0000_0000_0000_0000 && encoded_at(
                        data@,
                        pos as int,
                        #[trigger] spec_encode_bytes(w),
                    )) by {
                    if w.len() < 0x1_0000_0000_0000_0000 && encoded_at(
                        data@,
                        pos as int,
                        spec_encode_bytes(w),
                    ) {
                        lemma_le_bytes_len(w.len(), 8);
                        lemma_encoded_at_concat(
                            data@,
                            pos as int,
                            spec_encode_u64(w.len() as int),
                            w,
                        );
                    }
                }
            }
            None
        },
    }
}

/// The bounds a vote must meet for its encoding to be faithful: every field
/// fits its wire width.
pub open spec fn vote_view_wf(v: VoteView) -> bool {
    &&& 0 <= v.height < 0x1_0000_0000_0000_0000
    &&& 0 <= v.round < 0x1_0000_0000_0000_0000
    &&& v.block_hash.len() < 0x1_0000_0000_0000_0000
}

/// The wire encoding of a vote: height, round, then the hash.
pub open spec fn spec_encode_vote(v: VoteView) -> Seq<u8> {
    spec_encode_u64(v.height) + spec_encode_u64(v.round) + spec_encode_bytes(v.block_hash)
}

/// Appends the encoding of a vote.
pub fn encode_vote(out: &mut Vec<u8>, v: &Vote)
    ensures
        final(out)@ == old(out)@ + spec_encode_vote(v@),
{
    encode_u64(out, v.height);
    encode_u64(out, v.round);
    encode_bytes(out, &v.block_hash);
    proof {
        assert(old(out)@ + spec_encode_u64(v@.height) + spec_encode_u64(v@.round)
            + spec_encode_bytes(v@.block_hash) =~= old(out)@ + spec_encode_vote(v@));
    }
}

/// Reads the vote encoded at `pos`: exactly the vote whose encoding sits
/// there.
pub fn decode_vote(data: &Vec<u8>, pos: usize) -> (r: Option<(Vote, usize)>)
    ensures
        r matches Some((v, p)) ==> pos <= p <= data@.len() && data@.subrange(pos as int, p as int)
            == spec_encode_vote(v@),
        forall|w: VoteView|
            vote_view_wf(w) && encoded_at(data@, pos as int, #[trigger] spec_encode_vote(w)) ==> (
            r matches Some((v, p)) && v@ == w && p == pos + spec_encode_vote(w).len()),
{
    proof {
        assert forall|w: VoteView|
            vote_view_wf(w) && encoded_at(data@, pos as int, #[trigger] spec_encode_vote(w))
            implies encoded_at(data@, pos as int, spec_encode_u64(w.height)) && encoded_at(
            data@,
            pos + 8,
            spec_encode_u64(w.round),
        ) && encoded_at(data@, pos + 16, spec_encode_bytes(w.block_hash)) by {
            lemma_le_bytes_len(w.height as nat, 8);
            lemma_le_bytes_len(w.round as nat, 8);
            lemma_le_bytes_len(w.block_hash.len(), 8);
            lemma_encoded_at_concat(
                data@,
                pos as int,
                spec_encode_u64(w.height) + spec_encode_u64(w.round),
                spec_encode_bytes(w.block_hash),
            );
            lemma_encoded_at_concat(
                data@,
                pos as int,
                spec_encode_u64(w.height),
                spec_encode_u64(w.round),
            );
        }
    }
    let first = decode_u64(data, pos);
    let (height, p1) = match first {
        Some(x) => x,
        None => {
            return None;
        },
    };
    let second = decode_u64(data, p1);
    let (round, p2) = match second {
        Some(x) => x,
        None => {
            proof {
                assert forall|w: VoteView|
                    !(vote_view_wf(w) && encoded_at(
                        data@,
                        pos as int,
                        #[trigger] spec_encode_vote(w),
                    )) by {
                    if vote_view_wf(w) && encoded_at(data@, pos as int, spec_encode_vote(w)) {
                        lemma_le_bytes_len(w.round as nat, 8);
                    }
                }
            }
            return None;
        },
    };
    let third = decode_bytes(data, p2);
    match third {
        Some((block_hash, p3)) => {
            let v = Vote::new(height, round, block_hash);
            proof {
                assert(data@.subrange(pos as int, p3 as int) =~= data@.subrange(pos as int, pos + 8)
                    + data@.subrange(pos + 8, pos + 16) + data@.subrange(pos + 16, p3 as int));
                assert(data@.subrange(pos as int, p3 as int) == spec_encode_vote(v@));
                assert forall|w: VoteView|
                    vote_view_wf(w) && encoded_at(data@, pos as int, #[trigger] spec_encode_vote(w))
                    implies v@ == w && p3 == pos + spec_encode_vote(w).len() by {
                    lemma_le_bytes_len(w.height as nat, 8);
                    lemma_le_bytes_len(w.round as nat, 8);
                    lemma_le_bytes_len(w.block_hash.len(), 8);
                    lemma_encode_u64_injective(height as int, w.height);
                    lemma_encode_u64_injective(round as int, w.round);
                }
            }
            Some((v, p3))
        },
        None => {
            proof {
                assert forall|w: VoteView|
                    !(vote_view_wf(w) && encoded_at(
                        data@,
                        pos as int,
                        #[trigger] spec_encode_vote(w),
                    )) by {}
            }
            None
        },
    }
}

/// The bounds an aggregate must meet for its encoding to be faithful.
pub open spec fn aggregates_view_wf(a: AggregatesView) -> bool {
    &&& a.address_bitmap.len() < 0x1_0000_0000_0000_0000
    &&& a.signature.len() < 0x1_0000_0000_0000_0000
}

/// The wire encoding of an aggregate: the bitmap, then the signature.
pub open spec fn spec_encode_aggregates(a: AggregatesView) -> Seq<u8> {
    spec_encode_bytes(a.address_bitmap) + spec_encode_bytes(a.signature)
}

/// Appends the encoding of an aggregate.
pub fn encode_aggregates(out: &mut Vec<u8>, a: &Aggregates)
    ensures
        final(out)@ == old(out)@ + spec_encode_aggregates(a@),
{
    encode_bytes(out, &a.address_bitmap);
    encode_bytes(out, &a.signature);
    proof {
        assert(old(out)@ + spec_encode_bytes(a@.address_bitmap) + spec_encode_bytes(a@.signature)
            =~= old(out)@ + spec_encode_aggregates(a@));
    }
}

/// Reads the aggregate encoded at `pos`: exactly the aggregate whose
/// encoding sits there.
pub fn decode_aggregates(data: &Vec<u8>, pos: usize) -> (r: Option<(Aggregates, usize)>)
    ensures
        r matches Some((a, p)) ==> pos <= p <= data@.len() && data@.subrange(pos as int, p as int)
            == spec_encode_aggregates(a@),
        forall|w: AggregatesView|
            aggregates_view_wf(w) && encoded_at(
                data@,
                pos as int,
                #[trigger] spec_encode_aggregates(w),
            ) ==> (r matches Some((a, p)) && a@ == w && p == pos + spec_encode_aggregates(w).len()),
{
    proof {
        assert forall|w: AggregatesView|
            aggregates_view_wf(w) && encoded_at(
                data@,
                pos as int,
                #[trigger] spec_encode_aggregates(w),
            ) implies encoded_at(data@, pos as int, spec_encode_bytes(w.address_bitmap))
            && encoded_at(
            data@,
            pos + spec_encode_bytes(w.address_bitmap).len(),
            spec_encode_bytes(w.signature),
        ) by {
            lemma_encoded_at_concat(
                data@,
                pos as int,
                spec_encode_bytes(w.address_bitmap),
                spec_encode_bytes(w.signature),
            );
        }
    }
    let first = decode_bytes(data, pos);
    let (address_bitmap, p1) = match first {
        Some(x) => x,
        None => {
            return None;
        },
    };
    let second = decode_bytes(data, p1);
    match second {
        Some((signature, p2)) => {
            let a = Aggregates::new(address_bitmap, signature);
            proof {
                assert(data@.subrange(pos as int, p2 as int) =~= data@.subrange(
                    pos as int,
                    p1 as int,
                ) + data@.subrange(p1 as int, p2 as int));
                assert(data@.subrange(pos as int, p2 as int) == spec_encode_aggregates(a@));
            }
            Some((a, p2))
        },
        None => None,
    }
}

/// The bounds a certificate must meet for its encoding to be faithful.
pub open spec fn qc_view_wf(q: QcView) -> bool {
    vote_view_wf(q.vote) && aggregates_view_wf(q.aggregates)
}

/// The wire encoding of a vote certificate: the vote, then the aggregate.
pub open spec fn spec_encode_qc(q: QcView) -> Seq<u8> {
    spec_encode_vote(q.vote) + spec_encode_aggregates(q.aggregates)
}

/// Appends the encoding of a pre-vote certificate.
pub fn encode_pre_vote_qc(out: &mut Vec<u8>, qc: &PreVoteQC)
    ensures
        final(out)@ == old(out)@ + spec_encode_qc(qc@),
{
    encode_vote(out, &qc.vote);
    encode_aggregates(out, &qc.aggregates);
    proof {
        assert(old(out)@ + spec_encode_vote(qc@.vote) + spec_encode_aggregates(qc@.aggregates)
            =~= old(out)@ + spec_encode_qc(qc@));
    }
}

/// Appends the encoding of a pre-commit certificate.
pub fn encode_pre_commit_qc(out: &mut Vec<u8>, qc: &PreCommitQC)
    ensures
        final(out)@ == old(out)@ + spec_encode_qc(qc@),
{
    encode_vote(out, &qc.vote);
    encode_aggregates(out, &qc.aggregates);
    proof {
        assert(old(out)@ + spec_encode_vote(qc@.vote) + spec_encode_aggregates(qc@.aggregates)
            =~= old(out)@ + spec_encode_qc(qc@));
    }
}

/// Reads the vote and aggregate of a certificate encoded at `pos`.
fn decode_qc_parts(data: &Vec<u8>, pos: usize) -> (r: Option<(Vote, Aggregates, usize)>)
    ensures
        r matches Some((v, a, p)) ==> pos <= p <= data@.len() && data@.subrange(
            pos as int,
            p as int,
        ) == spec_encode_qc(QcView { vote: v@, aggregates: a@ }),
        forall|w: QcView|
            qc_view_wf(w) && encoded_at(data@, pos as int, #[trigger] spec_encode_qc(w)) ==> (
            r matches Some((v, a, p)) && v@ == w.vote && a@ == w.aggregates && p == pos
                + spec_encode_qc(w).len()),
{
    proof {
        assert forall|w: QcView|
            qc_view_wf(w) && encoded_at(data@, pos as int, #[trigger] spec_encode_qc(w)) implies
            encoded_at(data@, pos as int, spec_encode_vote(w.vote)) && encoded_at(
            data@,
            pos + spec_encode_vote(w.vote).len(),
            spec_encode_aggregates(w.aggregates),
        ) by {
            lemma_encoded_at_concat(
                data@,
                pos as int,
                spec_encode_vote(w.vote),
                spec_encode_aggregates(w.aggregates),
            );
        }
    }
    let first = decode_vote(data, pos);
    let (vote, p1) = match first {
        Some(x) => x,
        None => {
            return None;
        },
    };
    let second = decode_aggregates(data, p1);
    match second {
        Some((aggregates, p2)) => {
            proof {
                assert(data@.subrange(pos as int, p2 as int) =~= data@.subrange(
                    pos as int,
                    p1 as int,
                ) + data@.subrange(p1 as int, p2 as int));
            }
            Some((vote, aggregates, p2))
        },
        None => None,
    }
}

/// Reads the pre-vote certificate encoded at `pos`.
pub fn decode_pre_vote_qc(data: &Vec<u8>, pos: usize) -> (r: Option<(PreVoteQC, usize)>)
    ensures
        r matches Some((qc, p)) ==> pos <= p <= data@.len() && data@.subrange(
            pos as int,
            p as int,
        ) == spec_encode_qc(qc@),
        forall|w: QcView|
            qc_view_wf(w) && encoded_at(data@, pos as int, #[trigger] spec_encode_qc(w)) ==> (
            r matches Some((qc, p)) && qc@ == w && p == pos + spec_encode_qc(w).len()),
{
    match decode_qc_parts(data, pos) {
        Some((vote, aggregates, p)) => Some((PreVoteQC::new(vote, aggregates), p)),
        None => None,
    }
}

/// Reads the pre-commit certificate encoded at `pos`.
pub fn decode_pre_commit_qc(data: &Vec<u8>, pos: usize) -> (r: Option<(PreCommitQC, usize)>)
    ensures
        r matches Some((qc, p)) ==> pos <= p <= data@.len() && data@.subrange(
            pos as int,
            p as int,
        ) == spec_encode_qc(qc@),
        forall|w: QcView|
            qc_view_wf(w) && encoded_at(data@, pos as int, #[trigger] spec_encode_qc(w)) ==> (
            r matches Some((qc, p)) && qc@ == w && p == pos + spec_encode_qc(w).len()),
{
    match decode_qc_parts(data, pos) {
        Some((vote, aggregates, p)) => Some((PreCommitQC::new(vote, aggregates), p)),
        None => None,
    }
}

/// The bounds a choke must meet for its encoding to be faithful.
pub open spec fn choke_view_wf(c: ChokeView) -> bool {
    0 <= c.height < 0x1_0000_0000_0000_0000 && 0 <= c.round < 0x1_0000_0000_0000_0000
}

/// The wire encoding of a choke: height, then round.
pub open spec fn spec_encode_choke(c: ChokeView) -> Seq<u8> {
    spec_encode_u64(c.height) + spec_encode_u64(c.round)
}

/// Appends the encoding of a choke.
pub fn encode_choke(out: &mut Vec<u8>, c: &Choke)
    ensures
        final(out)@ == old(out)@ + spec_encode_choke(c@),
{
    encode_u64(out, c.height);
    encode_u64(out, c.round);
    proof {
        assert(old(out)@ + spec_encode_u64(c@.height) + spec_encode_u64(c@.round) =~= old(out)@
            + spec_encode_choke(c@));
    }
}

/// Reads the choke encoded at `pos`.
pub fn decode_choke(data: &Vec<u8>, pos: usize) -> (r: Option<(Choke, usize)>)
    ensures
        r matches Some((c, p)) ==> pos <= p <= data@.len() && data@.subrange(pos as int, p as int)
            == spec_encode_choke(c@),
        forall|w: ChokeView|
            choke_view_wf(w) && encoded_at(data@, pos as int, #[trigger] spec_encode_choke(w)) ==> (
            r matches Some((c, p)) && c@ == w && p == pos + spec_encode_choke(w).len()),
{
    proof {
        assert forall|w: ChokeView|
            choke_view_wf(w) && encoded_at(data@, pos as int, #[trigger] spec_encode_choke(w))
            implies encoded_at(data@, pos as int, spec_encode_u64(w.height)) && encoded_at(
            data@,
            pos + 8,
            spec_encode_u64(w.round),
        ) by {
            lemma_le_bytes_len(w.height as nat, 8);
            lemma_le_bytes_len(w.round as nat, 8);
            lemma_encoded_at_concat(
                data@,
                pos as int,
                spec_encode_u64(w.height),
                spec_encode_u64(w.round),
            );
        }
    }
    let first = decode_u64(data, pos);
    let (height, p1) = match first {
        Some(x) => x,
        None => {
            return None;
        },
    };
    let second = decode_u64(data, p1);
    match second {
        Some((round, p2)) => {
            let c = Choke::new(height, round);
            proof {
                assert(data@.subrange(pos as int, p2 as int) =~= data@.subrange(pos as int, pos + 8)
                    + data@.subrange(pos + 8, p2 as int));
                assert(data@.subrange(pos as int, p2 as int) == spec_encode_choke(c@));
                assert forall|w: ChokeView|
                    choke_view_wf(w) && encoded_at(
                        data@,
                        pos as int,
                        #[trigger] spec_encode_choke(w),
                    ) implies c@ == w && p2 == pos + spec_encode_choke(w).len() by {
                    lemma_le_bytes_len(w.height as nat, 8);
                    lemma_le_bytes_len(w.round as nat, 8);
                    lemma_encode_u64_injective(height as int, w.height);
                    lemma_encode_u64_injective(round as int, w.round);
                }
            }
            Some((c, p2))
        },
        None => {
            proof {
                assert forall|w: ChokeView|
                    !(choke_view_wf(w) && encoded_at(
                        data@,
                        pos as int,
                        #[trigger] spec_encode_choke(w),
                    )) by {
                    if choke_view_wf(w) && encoded_at(data@, pos as int, spec_encode_choke(w)) {
                        lemma_le_bytes_len(w.round as nat, 8);
                    }
                }
            }
            None
        },
    }
}

/// The bounds a choke certificate must meet for its encoding to be faithful.
pub open spec fn choke_qc_view_wf(c: ChokeQcView) -> bool {
    choke_view_wf(c.choke) && aggregates_view_wf(c.aggregates)
}

/// The wire encoding of a choke certificate: the choke, then the aggregate.
pub open spec fn spec_encode_choke_qc(c: ChokeQcView) -> Seq<u8> {
    spec_encode_choke(c.choke) + spec_encode_aggregates(c.aggregates)
}

/// Appends the encoding of a choke certificate.
pub fn encode_choke_qc(out: &mut Vec<u8>, qc: &ChokeQC)
    ensures
        final(out)@ == old(out)@ + spec_encode_choke_qc(qc@),
{
    encode_choke(out, &qc.choke);
    encode_aggregates(out, &qc.aggregates);
    proof {
        assert(old(out)@ + spec_encode_choke(qc@.choke) + spec_encode_aggregates(qc@.aggregates)
            =~= old(out)@ + spec_encode_choke_qc(qc@));
    }
}

/// Reads the choke certificate encoded at `pos`.
pub fn decode_choke_qc(data: &Vec<u8>, pos: usize) -> (r: Option<(ChokeQC, usize)>)
    ensures
        r matches Some((qc, p)) ==> pos <= p <= data@.len() && data@.subrange(
            pos as int,
            p as int,
        ) == spec_encode_choke_qc(qc@),
        forall|w: ChokeQcView|
            choke_qc_view_wf(w) && encoded_at(
                data@,
                pos as int,
                #[trigger] spec_encode_choke_qc(w),
            ) ==> (r matches Some((qc, p)) && qc@ == w && p == pos + spec_encode_choke_qc(w).len()),
{
    proof {
        assert forall|w: ChokeQcView|
            choke_qc_view_wf(w) && encoded_at(
                data@,
                pos as int,
                #[trigger] spec_encode_choke_qc(w),
            ) implies encoded_at(data@, pos as int, spec_encode_choke(w.choke)) && encoded_at(
            data@,
            pos + spec_encode_choke(w.choke).len(),
            spec_encode_aggregates(w.aggregates),
        ) by {
            lemma_encoded_at_concat(
                data@,
                pos as int,
                spec_encode_choke(w.choke),
                spec_encode_aggregates(w.aggregates),
            );
        }
    }
    let first = decode_choke(data, pos);
    let (choke, p1) = match first {
        Some(x) => x,
        None => {
            return None;
        },
    };
    let second = decode_aggregates(data, p1);
    match second {
        Some((aggregates, p2)) => {
            let qc = ChokeQC::new(choke, aggregates);
            proof {
                assert(data@.subrange(pos as int, p2 as int) =~= data@.subrange(
                    pos as int,
                    p1 as int,
                ) + data@.subrange(p1 as int, p2 as int));
                assert(data@.subrange(pos as int, p2 as int) == spec_encode_choke_qc(qc@));
            }
            Some((qc, p2))
        },
        None => None,
    }
}

/// Digits are uniquely determined: a digit string spells its number and is
/// the number's digit string.
pub proof fn lemma_le_from_le(s: Seq<u8>)
    ensures
        le_bytes(from_le(s), s.len()) == s,
    decreases s.len(),
{
    if s.len() > 0 {
        lemma_le_from_le(s.drop_first());
        let x = from_le(s);
        assert(x == s[0] as nat + 256 * from_le(s.drop_first()));
        assert(x % 256 == s[0] as nat && x / 256 == from_le(s.drop_first())) by (nonlinear_arith)
            requires
                x == s[0] as nat + 256 * from_le(s.drop_first()),
                0 <= s[0] < 256,
                from_le(s.drop_first()) >= 0,
        ;
        assert(le_bytes(x, s.len()) =~= s);
    }
}


/// The bounds a block must meet for its encoding to be faithful.
pub open spec fn test_block_view_wf(b: TestBlockView) -> bool {
    &&& b.pre_hash.len() < 0x1_0000_0000_0000_0000
    &&& 0 <= b.height < 0x1_0000_0000_0000_0000
    &&& 0 <= b.exec_height < 0x1_0000_0000_0000_0000
    &&& qc_view_wf(b.pre_proof)
}

/// The wire encoding of a block: the predecessor hash, both heights, then the
/// predecessor's proof.
pub open spec fn spec_encode_test_block(b: TestBlockView) -> Seq<u8> {
    spec_encode_bytes(b.pre_hash) + spec_encode_u64(b.height) + spec_encode_u64(b.exec_height)
        + spec_encode_qc(b.pre_proof)
}

/// Appends the encoding of a block.
pub fn encode_test_block(out: &mut Vec<u8>, b: &TestBlock)
    ensures
        final(out)@ == old(out)@ + spec_encode_test_block(b@),
{
    encode_bytes(out, &b.pre_hash);
    encode_u64(out, b.height);
    encode_u64(out, b.exec_height);
    encode_pre_commit_qc(out, &b.pre_proof);
    proof {
        assert(old(out)@ + spec_encode_bytes(b@.pre_hash) + spec_encode_u64(b@.height)
            + spec_encode_u64(b@.exec_height) + spec_encode_qc(b@.pre_proof) =~= old(out)@
            + spec_encode_test_block(b@));
    }
}

/// Reads the block encoded at `pos`.
pub fn decode_test_block(data: &Vec<u8>, pos: usize) -> (r: Option<(TestBlock, usize)>)
    ensures
        r matches Some((b, p)) ==> pos <= p <= data@.len() && data@.subrange(pos as int, p as int)
            == spec_encode_test_block(b@),
        forall|w: TestBlockView|
            test_block_view_wf(w) && encoded_at(
                data@,
                pos as int,
                #[trigger] spec_encode_test_block(w),
            ) ==> (r matches Some((b, p)) && b@ == w && p == pos + spec_encode_test_block(w).len()),
{
    proof {
        assert forall|w: TestBlockView|
            test_block_view_wf(w) && encoded_at(
                data@,
                pos as int,
                #[trigger] spec_encode_test_block(w),
            ) implies encoded_at(data@, pos as int, spec_encode_bytes(w.pre_hash)) && encoded_at(
            data@,
            pos + spec_encode_bytes(w.pre_hash).len(),
            spec_encode_u64(w.height),
        ) && encoded_at(
            data@,
            pos + spec_encode_bytes(w.pre_hash).len() + 8,
            spec_encode_u64(w.exec_height),
        ) && encoded_at(
            data@,
            pos + spec_encode_bytes(w.pre_hash).len() + 16,
            spec_encode_qc(w.pre_proof),
        ) by {
            lemma_le_bytes_len(w.height as nat, 8);
            lemma_le_bytes_len(w.exec_height as nat, 8);
            lemma_encoded_at_concat(
                data@,
                pos as int,
                spec_encode_bytes(w.pre_hash) + spec_encode_u64(w.height) + spec_encode_u64(
                    w.exec_height,
                ),
                spec_encode_qc(w.pre_proof),
            );
            lemma_encoded_at_concat(
                data@,
                pos as int,
                spec_encode_bytes(w.pre_hash) + spec_encode_u64(w.height),
                spec_encode_u64(w.exec_height),
            );
            lemma_encoded_at_concat(
                data@,
                pos as int,
                spec_encode_bytes(w.pre_hash),
                spec_encode_u64(w.height),
            );
        }
    }
    let first = decode_bytes(data, pos);
    let (pre_hash, p1) = match first {
        Some(x) => x,
        None => {
            return None;
        },
    };
    let second = decode_u64(data, p1);
    let (height, p2) = match second {
        Some(x) => x,
        None => {
            return None;
        },
    };
    let third = decode_u64(data, p2);
    let (exec_height, p3) = match third {
        Some(x) => x,
        None => {
            return None;
        },
    };
    let fourth = decode_pre_commit_qc(data, p3);
    match fourth {
        Some((pre_proof, p4)) => {
            let b = TestBlock { pre_hash, height, exec_height, pre_proof };
            proof {
                assert(data@.subrange(pos as int, p4 as int) =~= data@.subrange(
                    pos as int,
                    p1 as int,
                ) + data@.subrange(p1 as int, p2 as int) + data@.subrange(p2 as int, p3 as int)
                    + data@.subrange(p3 as int, p4 as int));
                assert(data@.subrange(pos as int, p4 as int) == spec_encode_test_block(b@));
                assert forall|w: TestBlockView|
                    test_block_view_wf(w) && encoded_at(
                        data@,
                        pos as int,
                        #[trigger] spec_encode_test_block(w),
                    ) implies b@ == w && p4 == pos + spec_encode_test_block(w).len() by {
                    lemma_le_bytes_len(w.height as nat, 8);
                    lemma_le_bytes_len(w.exec_height as nat, 8);
                    lemma_encode_u64_injective(height as int, w.height);
                    lemma_encode_u64_injective(exec_height as int, w.exec_height);
                }
            }
            Some((b, p4))
        },
        None => None,
    }
}

/// The hash the test block identifies itself by: the eight-byte encoding of
/// its digest.
pub open spec fn spec_block_hash(b: TestBlockView) -> Seq<u8> {
    spec_encode_u64(fnv64(spec_encode_test_block(b)) as int)
}

/// The deterministic digest the test block hashes with: a
/// Fowler–Noll–Vo-style fold of the block's encoding.
pub open spec fn fnv64(s: Seq<u8>) -> u64
    decreases s.len(),
{
    if s.len() == 0 {
        0xcbf29ce484222325u64
    } else {
        vstd::wrapping::u64_specs::wrapping_mul(
            fnv64(s.drop_last()) ^ (s.last() as u64),
            0x100000001b3u64,
        )
    }
}

/// Computes the digest of a byte string.
pub fn fnv64_digest(data: &Vec<u8>) -> (r: u64)
    ensures
        r == fnv64(data@),
{
    let mut acc: u64 = 0xcbf29ce484222325;
    let mut i: usize = 0;
    proof {
        assert(data@.take(0) =~= Seq::<u8>::empty());
    }
    while i < data.len()
        invariant
            i <= data@.len(),
            acc == fnv64(data@.take(i as int)),
        decreases data@.len() - i,
    {
        proof {
            assert(data@.take(i + 1).drop_last() =~= data@.take(i as int));
            assert(data@.take(i + 1).last() == data@[i as int]);
        }
        acc = (acc ^ (data[i] as u64)).wrapping_mul(0x100000001b3);
        i += 1;
    }
    proof {
        assert(data@.take(data@.len() as int) =~= data@);
    }
    acc
}

impl Blk for TestBlock {
    open spec fn repr(&self) -> Seq<u8> {
        spec_encode_test_block(self@)
    }

    fn fixed_encode(&self) -> (r: Vec<u8>)
        ensures
            r@ == self.repr(),
    {
        let mut out: Vec<u8> = Vec::new();
        encode_test_block(&mut out, self);
        proof {
            assert(out@ =~= self.repr());
        }
        out
    }

    fn fixed_decode(data: &Vec<u8>) -> (r: Option<Self>)
        ensures
            r matches Some(b) ==> b.repr() == data@,
            forall|w: TestBlockView|
                test_block_view_wf(w) && data@ == #[trigger] spec_encode_test_block(w) ==> (
                r matches Some(b) && b@ == w),
    {
        proof {
            assert forall|w: TestBlockView|
                test_block_view_wf(w) && data@ == #[trigger] spec_encode_test_block(w) implies
                encoded_at(data@, 0, spec_encode_test_block(w)) by {
                assert(data@.subrange(0, spec_encode_test_block(w).len() as int) =~= data@);
            }
        }
        match decode_test_block(data, 0) {
            Some((b, p)) => {
                if p == data.len() {
                    proof {
                        assert(data@.subrange(0, data@.len() as int) =~= data@);
                    }
                    Some(b)
                } else {
                    None
                }
            },
            None => None,
        }
    }

    fn blk_eq(&self, other: &Self) -> (r: bool)
        ensures
            r == (self.repr() == other.repr()),
    {
        let a = self.fixed_encode();
        let b = other.fixed_encode();
        crate::types::bytes_eq(&a, &b)
    }

    fn blk_clone(&self) -> (r: Self)
        ensures
            r.repr() == self.repr(),
    {
        TestBlock {
            pre_hash: crate::types::clone_bytes(&self.pre_hash),
            height: self.height,
            exec_height: self.exec_height,
            pre_proof: self.pre_proof.duplicate(),
        }
    }

    fn get_block_hash(&self) -> (r: crate::Hash)
        ensures
            r@ == spec_block_hash(self@),
    {
        let encoded = self.fixed_encode();
        let digest = fnv64_digest(&encoded);
        let mut out: Vec<u8> = Vec::new();
        encode_u64(&mut out, digest);
        proof {
            assert(out@ =~= spec_block_hash(self@));
        }
        out
    }

    fn get_pre_hash(&self) -> (r: crate::Hash)
        ensures
            r@ == self@.pre_hash,
    {
        crate::types::clone_bytes(&self.pre_hash)
    }

    fn get_height(&self) -> (r: crate::Height)
        ensures
            r as int == self@.height,
    {
        self.height
    }

    fn get_exec_height(&self) -> (r: crate::Height)
        ensures
            r as int == self@.exec_height,
    {
        self.exec_height
    }

    fn get_proof(&self) -> (r: PreCommitQC)
        ensures
            r@ == self@.pre_proof,
    {
        self.pre_proof.duplicate()
    }
}

} // verus!
