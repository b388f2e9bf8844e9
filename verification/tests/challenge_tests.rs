use challenges::{
    AccountId, BlockDoubleSign, Challenge, ChallengeBody, ChallengesResult, ChunkProofs,
    ChunkState, CryptoHash, Direction, MaybeEncodedShardChunk, MerklePathItem, PartialState,
    ShardChunk, ShardChunkHeader, SlashedValidator, ValidatorSigner,
};

fn account(name: &str) -> AccountId {
    AccountId::new(name.as_bytes().to_vec())
}

fn signer(name: &str) -> ValidatorSigner {
    let key = near_crypto::SecretKey::from_seed(near_crypto::KeyType::ED25519, name);
    ValidatorSigner::new(account(name), key)
}

fn sha256(bytes: &[u8]) -> Vec<u8> {
    <sha2::Sha256 as sha2::Digest>::digest(bytes).to_vec()
}

fn partial_state(blobs: &[&[u8]]) -> PartialState {
    let values = blobs
        .iter()
        .map(|b| std::sync::Arc::new(b.to_vec()))
        .collect::<Vec<_>>();
    PartialState::TrieValues(values)
}

fn path_item(fill: u8, direction: Direction) -> MerklePathItem {
    MerklePathItem { hash: CryptoHash::new(vec![fill; 32]), direction }
}

fn sample_chunk_proofs_body() -> ChallengeBody {
    ChallengeBody::ChunkProofs(ChunkProofs {
        block_header: b"header-bytes".to_vec(),
        merkle_proof: vec![path_item(0x11, Direction::Left), path_item(0x22, Direction::Right)],
        chunk: Box::new(MaybeEncodedShardChunk::Decoded(ShardChunk::new(
            b"decoded-chunk".to_vec(),
        ))),
    })
}

fn sample_chunk_state_body() -> ChallengeBody {
    ChallengeBody::ChunkState(ChunkState {
        prev_block_header: b"prev-block-header".to_vec(),
        block_header: b"block-header".to_vec(),
        prev_merkle_proof: vec![path_item(0x33, Direction::Right)],
        prev_chunk: ShardChunk::new(b"prev-chunk".to_vec()),
        merkle_proof: vec![path_item(0x44, Direction::Left)],
        chunk_header: ShardChunkHeader::new(b"chunk-header".to_vec()),
        partial_state: partial_state(&[b"node-a", b"node-b", b"value-c"]),
    })
}

#[test]
fn default_partial_state_is_empty() {
    let ps = PartialState::default();
    assert_eq!(ps.len(), 0);
}

#[test]
fn default_partial_state_summary_shows_count_only() {
    let ps = PartialState::default();
    assert_eq!(ps.summary(), "0 trie values");
}

#[test]
fn summary_counts_blobs_and_hides_contents() {
    let ps = partial_state(&[b"AAAA", b"BBBB", b"CCCC"]);
    let s = ps.summary();
    assert_eq!(s, "3 trie values");
    assert!(!s.contains("AAAA"));
}

#[test]
fn summary_of_large_count() {
    let blobs: Vec<&[u8]> = vec![b"x"; 12];
    let ps = partial_state(&blobs);
    assert_eq!(ps.summary(), "12 trie values");
}

#[test]
fn partial_state_round_trip() {
    let ps = partial_state(&[b"node-a", b"", b"a longer trie value blob"]);
    let bytes = ps.encode();
    let back = PartialState::decode(&bytes).expect("canonical bytes must decode");
    assert!(back == ps);
}

#[test]
fn partial_state_encoding_matches_borsh() {
    let blobs: Vec<Vec<u8>> = vec![b"node-a".to_vec(), b"value-b".to_vec()];
    let ps = partial_state(&[b"node-a", b"value-b"]);
    let expected = borsh::to_vec(&(0u8, blobs)).unwrap();
    assert_eq!(ps.encode(), expected);
}

#[test]
fn partial_state_decode_rejects_truncation() {
    let ps = partial_state(&[b"node-a", b"value-b"]);
    let mut bytes = ps.encode();
    bytes.pop();
    assert!(PartialState::decode(&bytes).is_none());
}

#[test]
fn partial_state_decode_rejects_trailing_bytes() {
    let ps = partial_state(&[b"node-a"]);
    let mut bytes = ps.encode();
    bytes.push(0);
    assert!(PartialState::decode(&bytes).is_none());
}

#[test]
fn partial_state_decode_rejects_bad_tag() {
    let ps = partial_state(&[b"node-a"]);
    let mut bytes = ps.encode();
    bytes[0] = 7;
    assert!(PartialState::decode(&bytes).is_none());
}

#[test]
fn body_round_trip_block_double_sign() {
    let body = ChallengeBody::BlockDoubleSign(BlockDoubleSign {
        left_block_header: b"left-header".to_vec(),
        right_block_header: b"right-header".to_vec(),
    });
    let bytes = body.encode();
    let back = ChallengeBody::decode(&bytes).expect("canonical bytes must decode");
    assert!(back == body);
}

#[test]
fn body_round_trip_chunk_proofs() {
    let body = sample_chunk_proofs_body();
    let bytes = body.encode();
    let back = ChallengeBody::decode(&bytes).expect("canonical bytes must decode");
    assert!(back == body);
}

#[test]
fn body_round_trip_chunk_state() {
    let body = sample_chunk_state_body();
    let bytes = body.encode();
    let back = ChallengeBody::decode(&bytes).expect("canonical bytes must decode");
    assert!(back == body);
}

#[test]
fn body_round_trip_encoded_chunk() {
    let body = ChallengeBody::ChunkProofs(ChunkProofs {
        block_header: b"header".to_vec(),
        merkle_proof: vec![],
        chunk: Box::new(MaybeEncodedShardChunk::Encoded(
            challenges::EncodedShardChunk::new(b"corrupt \xff encoding".to_vec()),
        )),
    });
    let bytes = body.encode();
    let back = ChallengeBody::decode(&bytes).expect("canonical bytes must decode");
    assert!(back == body);
}

#[test]
fn body_decode_rejects_unknown_variant_tag() {
    let body = sample_chunk_proofs_body();
    let mut bytes = body.encode();
    bytes[0] = 3;
    assert!(ChallengeBody::decode(&bytes).is_none());
}

#[test]
fn produce_hashes_the_body_encoding() {
    let body = sample_chunk_proofs_body();
    let challenge = Challenge::produce(body.clone(), &signer("alice"));
    assert_eq!(challenge.hash.bytes, sha256(&body.encode()));
    assert_eq!(challenge.account_id.bytes, b"alice".to_vec());
}

#[test]
fn decoded_challenge_rederives_the_body_hash() {
    let body = sample_chunk_state_body();
    let challenge = Challenge::produce(body.clone(), &signer("alice"));
    let wire = challenge.encode();
    let back = Challenge::decode(&wire).expect("canonical bytes must decode");
    assert!(back == challenge);
    assert_eq!(back.hash.bytes, sha256(&body.encode()));
}

#[test]
fn challenge_hash_is_not_the_envelope_hash() {
    let body = sample_chunk_proofs_body();
    let challenge = Challenge::produce(body, &signer("alice"));
    let wire = challenge.encode();
    assert_ne!(challenge.hash.bytes, sha256(&wire));
}

#[test]
fn wire_form_carries_no_hash() {
    let body = sample_chunk_proofs_body();
    let mut challenge = Challenge::produce(body.clone(), &signer("alice"));
    // Corrupt the cached hash before encoding: the wire form omits the
    // hash entirely, so the decoded value still carries the honest one.
    challenge.hash = CryptoHash::new(vec![0xEE; 32]);
    let wire = challenge.encode();
    let back = Challenge::decode(&wire).expect("canonical bytes must decode");
    assert_eq!(back.hash.bytes, sha256(&body.encode()));
}

#[test]
fn init_recomputes_a_stale_hash() {
    let body = sample_chunk_proofs_body();
    let mut challenge = Challenge::produce(body.clone(), &signer("alice"));
    challenge.hash = CryptoHash::new(vec![0; 32]);
    challenge.init();
    assert_eq!(challenge.hash.bytes, sha256(&body.encode()));
}

#[test]
fn different_bodies_give_different_hashes() {
    let s = signer("alice");
    let body1 = ChallengeBody::BlockDoubleSign(BlockDoubleSign {
        left_block_header: b"header-one".to_vec(),
        right_block_header: b"header-two".to_vec(),
    });
    let body2 = ChallengeBody::BlockDoubleSign(BlockDoubleSign {
        left_block_header: b"header-one".to_vec(),
        right_block_header: b"header-three".to_vec(),
    });
    let c1 = Challenge::produce(body1, &s);
    let c2 = Challenge::produce(body2, &s);
    assert!(c1.hash != c2.hash);
}

#[test]
fn tampered_body_invalidates_the_original_signature() {
    let s = signer("alice");
    let key = near_crypto::SecretKey::from_seed(near_crypto::KeyType::ED25519, "alice");
    let public_key = key.public_key();
    let body = ChallengeBody::BlockDoubleSign(BlockDoubleSign {
        left_block_header: b"left-header-payload".to_vec(),
        right_block_header: b"right-header-payload".to_vec(),
    });
    let challenge = Challenge::produce(body.clone(), &s);
    let original_signature = near_crypto::Signature::from_parts(
        near_crypto::KeyType::ED25519,
        &challenge.signature.data,
    )
    .unwrap();
    // Sanity: the signature verifies against the honest hash.
    assert!(original_signature.verify(&challenge.hash.bytes, &public_key));

    // Flip every bit of the serialized body in turn. Either the bytes no
    // longer decode at all, or the recomputed hash changes and the
    // original signature no longer verifies against it.
    let body_bytes = body.encode();
    for i in 0..body_bytes.len() {
        for bit in 0..8u8 {
            let mut flipped = body_bytes.clone();
            flipped[i] ^= 1 << bit;
            match ChallengeBody::decode(&flipped) {
                None => {}
                Some(tampered) => {
                    assert!(tampered != body);
                    let tampered_hash = sha256(&tampered.encode());
                    assert_ne!(tampered_hash, challenge.hash.bytes);
                    assert!(!original_signature.verify(&tampered_hash, &public_key));
                }
            }
        }
    }
}

#[test]
fn double_sign_scenario_slashes_the_author_as_double_sign() {
    let validator = signer("dishonest-validator");
    let body = ChallengeBody::BlockDoubleSign(BlockDoubleSign {
        left_block_header: b"height-17-hash-aa".to_vec(),
        right_block_header: b"height-17-hash-bb".to_vec(),
    });
    let challenge = Challenge::produce(body, &signer("observer"));
    let wire = challenge.encode();
    let received = Challenge::decode(&wire).expect("structurally valid challenge");
    // External semantic check confirms the two headers conflict; the
    // verifier then emits the double-sign outcome for the author.
    match &received.body {
        ChallengeBody::BlockDoubleSign(b) => {
            assert!(b.left_block_header != b.right_block_header);
        }
        _ => panic!("wrong variant"),
    }
    let result: ChallengesResult =
        vec![SlashedValidator::new(validator.validator_id().clone(), true)];
    assert_eq!(result.len(), 1);
    assert_eq!(result[0].account_id.bytes, b"dishonest-validator".to_vec());
    assert!(result[0].is_double_sign);
}

#[test]
fn chunk_proofs_scenario_slashes_the_chunk_author() {
    // The decoded chunk's transaction root does not match its header's
    // declared root; the external verifier finds the inconsistency and
    // slashes the chunk author, not as a double sign.
    let body = sample_chunk_proofs_body();
    let challenge = Challenge::produce(body, &signer("observer"));
    let wire = challenge.encode();
    let received = Challenge::decode(&wire).expect("structurally valid challenge");
    match &received.body {
        ChallengeBody::ChunkProofs(p) => match p.chunk.as_ref() {
            MaybeEncodedShardChunk::Decoded(_) => {}
            MaybeEncodedShardChunk::Encoded(_) => panic!("expected the decoded form"),
        },
        _ => panic!("wrong variant"),
    }
    let result: ChallengesResult = vec![SlashedValidator::new(account("chunk-author"), false)];
    assert_eq!(result[0].account_id.bytes, b"chunk-author".to_vec());
    assert!(!result[0].is_double_sign);
}

#[test]
fn chunk_state_scenario_unsubstantiated_claim_slashes_the_submitter() {
    // The attached witness replays to exactly the claimed post-state, so
    // the challenge fails to substantiate its claim; the verifier slashes
    // the challenge's own submitter.
    let body = sample_chunk_state_body();
    let challenge = Challenge::produce(body, &signer("over-eager-submitter"));
    let wire = challenge.encode();
    let received = Challenge::decode(&wire).expect("structurally valid challenge");
    assert_eq!(received.account_id.bytes, b"over-eager-submitter".to_vec());
    let result: ChallengesResult =
        vec![SlashedValidator::new(received.account_id.clone(), false)];
    assert_eq!(result[0].account_id.bytes, b"over-eager-submitter".to_vec());
    assert!(!result[0].is_double_sign);
}

#[test]
fn challenge_decode_rejects_truncation() {
    let challenge = Challenge::produce(sample_chunk_proofs_body(), &signer("alice"));
    let mut wire = challenge.encode();
    wire.truncate(wire.len() - 1);
    assert!(Challenge::decode(&wire).is_none());
}

#[test]
fn challenge_decode_rejects_trailing_bytes() {
    let challenge = Challenge::produce(sample_chunk_proofs_body(), &signer("alice"));
    let mut wire = challenge.encode();
    wire.push(0xAB);
    assert!(Challenge::decode(&wire).is_none());
}

#[test]
fn slashed_validator_round_trip() {
    let v = SlashedValidator::new(account("guilty"), true);
    let bytes = v.encode();
    let back = SlashedValidator::decode(&bytes).expect("canonical bytes must decode");
    assert!(back == v);
    assert!(back.is_double_sign);

    let w = SlashedValidator::new(account("also-guilty"), false);
    let back2 = SlashedValidator::decode(&w.encode()).expect("canonical bytes must decode");
    assert!(!back2.is_double_sign);
}

#[test]
fn slashed_validator_decode_rejects_bad_flag() {
    let v = SlashedValidator::new(account("guilty"), true);
    let mut bytes = v.encode();
    let last = bytes.len() - 1;
    bytes[last] = 2;
    assert!(SlashedValidator::decode(&bytes).is_none());
}

#[test]
fn account_bytes_framing_matches_borsh() {
    let name = b"alice.near".to_vec();
    let v = SlashedValidator::new(AccountId::new(name.clone()), false);
    let expected = borsh::to_vec(&(name, 0u8)).unwrap();
    assert_eq!(v.encode(), expected);
}
