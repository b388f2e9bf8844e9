pub mod challenge;
pub mod chunks;
pub mod codec;
pub mod crypto;
pub mod hash;
pub mod merkle;
pub mod state;

pub use challenge::{
    BlockDoubleSign, Challenge, ChallengeBody, Challenges, ChallengesResult, ChunkProofs,
    ChunkState, SlashedValidator,
};
pub use chunks::{EncodedShardChunk, MaybeEncodedShardChunk, ShardChunk, ShardChunkHeader};
pub use crypto::{AccountId, Signature, SignatureKind, ValidatorSigner};
pub use hash::CryptoHash;
pub use merkle::{Direction, MerklePath, MerklePathItem};
pub use state::{PartialState, TrieValue};
