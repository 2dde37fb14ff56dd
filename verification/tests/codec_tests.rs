use overlord::codec::{
    decode_choke, decode_choke_qc, decode_pre_commit_qc, decode_pre_vote_qc, decode_test_block,
    decode_u64, decode_vote, encode_choke, encode_choke_qc, encode_pre_commit_qc,
    encode_pre_vote_qc, encode_test_block, encode_u64, encode_vote,
};
use overlord::traits::Blk;
use overlord::types::{
    Aggregates, Choke, ChokeQC, PreCommitQC, PreVoteQC, TestBlock, TinyHex, Vote,
};

#[test]
fn test_block_serialization() {
    let block = TestBlock::default();
    println!("{:?}", block);
    let encode = block.fixed_encode();
    let decode = TestBlock::fixed_decode(&encode).unwrap();
    assert_eq!(decode, block);
}

#[test]
fn u64_codec_round_trip() {
    for x in [0u64, 1, 255, 256, 0xdead_beef, u64::MAX] {
        let mut buf = Vec::new();
        encode_u64(&mut buf, x);
        assert_eq!(buf.len(), 8);
        let (y, p) = decode_u64(&buf, 0).unwrap();
        assert_eq!((y, p), (x, 8));
    }
}

#[test]
fn vote_codec_round_trip() {
    let vote = Vote::new(7, 2, b"abc".to_vec());
    let mut buf = b"prefix".to_vec();
    let start = buf.len();
    encode_vote(&mut buf, &vote);
    buf.extend_from_slice(b"suffix");
    let (decoded, p) = decode_vote(&buf, start).unwrap();
    assert_eq!(decoded, vote);
    assert_eq!(p, buf.len() - 6);
}

#[test]
fn qc_codec_round_trips() {
    let vote = Vote::new(3, 1, b"h".to_vec());
    let aggregates = Aggregates::new(b"\xC0".to_vec(), b"aggsig".to_vec());

    let pv = PreVoteQC::new(vote.clone(), aggregates.clone());
    let mut buf = Vec::new();
    encode_pre_vote_qc(&mut buf, &pv);
    let (decoded, p) = decode_pre_vote_qc(&buf, 0).unwrap();
    assert_eq!(decoded, pv);
    assert_eq!(p, buf.len());

    let pc = PreCommitQC::new(vote, aggregates.clone());
    let mut buf = Vec::new();
    encode_pre_commit_qc(&mut buf, &pc);
    let (decoded, p) = decode_pre_commit_qc(&buf, 0).unwrap();
    assert_eq!(decoded, pc);
    assert_eq!(p, buf.len());

    let ck = ChokeQC::new(Choke::new(3, 1), aggregates);
    let mut buf = Vec::new();
    encode_choke_qc(&mut buf, &ck);
    let (decoded, p) = decode_choke_qc(&buf, 0).unwrap();
    assert_eq!(decoded, ck);
    assert_eq!(p, buf.len());
}

#[test]
fn choke_codec_round_trip() {
    let choke = Choke::new(11, 4);
    let mut buf = Vec::new();
    encode_choke(&mut buf, &choke);
    let (decoded, p) = decode_choke(&buf, 0).unwrap();
    assert_eq!(decoded, choke);
    assert_eq!(p, 16);
}

#[test]
fn block_codec_round_trip_with_payload() {
    let block = TestBlock {
        pre_hash: b"previous".to_vec(),
        height: 42,
        exec_height: 40,
        pre_proof: PreCommitQC::new(
            Vote::new(41, 0, b"previous".to_vec()),
            Aggregates::new(b"\xE0".to_vec(), b"sig".to_vec()),
        ),
    };
    let mut buf = Vec::new();
    encode_test_block(&mut buf, &block);
    let (decoded, p) = decode_test_block(&buf, 0).unwrap();
    assert_eq!(decoded, block);
    assert_eq!(p, buf.len());

    // The trait path checks full consumption.
    let encoded = block.fixed_encode();
    assert_eq!(TestBlock::fixed_decode(&encoded).unwrap(), block);
    let mut padded = encoded.clone();
    padded.push(0);
    assert!(TestBlock::fixed_decode(&padded).is_none());
}

#[test]
fn truncated_input_is_rejected() {
    let vote = Vote::new(7, 2, b"abc".to_vec());
    let mut buf = Vec::new();
    encode_vote(&mut buf, &vote);
    buf.truncate(buf.len() - 1);
    assert!(decode_vote(&buf, 0).is_none());
}

#[test]
fn block_hash_is_deterministic() {
    let a = TestBlock::default();
    let b = TestBlock::default();
    assert_eq!(a.get_block_hash(), b.get_block_hash());
    assert_eq!(a.get_block_hash().len(), 8);
    let c = TestBlock { height: 1, ..TestBlock::default() };
    assert_ne!(a.get_block_hash(), c.get_block_hash());
}

#[test]
fn tiny_hex_matches_reference_encoder() {
    let bytes: Vec<u8> = vec![0xde, 0xad, 0xbe, 0xef, 0x99, 0x11];
    let mut expected = hex::encode(&bytes);
    expected.truncate(8);
    assert_eq!(bytes.tiny_hex(), expected);

    let short: Vec<u8> = vec![0x0f];
    assert_eq!(short.tiny_hex(), "0f");
    let empty: Vec<u8> = Vec::new();
    assert_eq!(empty.tiny_hex(), "");
}
