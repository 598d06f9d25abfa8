//! Content hashing: SHA-256 digests rendered as lowercase hexadecimal text.

use crate::consensus_layer::consensus_subcomponents::block_maker::{Block, BlockView};
use sha2::Digest;
use vstd::prelude::*;

verus! {

/// A content hash: 64 lowercase hexadecimal characters.
pub type CryptoHash = String;

/// The SHA-256 digest of `data`, as computed by the `sha2` crate.
pub uninterp spec fn sha256_digest(data: Seq<u8>) -> Seq<u8>;

/// The sixteen lowercase hexadecimal digits, in order of value.
pub open spec fn hex_digits() -> Seq<char> {
    seq!['0', '1', '2', '3', '4', '5', '6', '7', '8', '9', 'a', 'b', 'c', 'd', 'e', 'f']
}

/// Lowercase hexadecimal rendering of `bytes`: two digits per byte, high
/// nibble first.
pub open spec fn hex_of(bytes: Seq<u8>) -> Seq<char> {
    Seq::new(
        2 * bytes.len(),
        |i: int|
            if i % 2 == 0 {
                hex_digits()[bytes[i / 2] as int / 16]
            } else {
                hex_digits()[bytes[i / 2] as int % 16]
            },
    )
}

/// The hexadecimal rendering can be read back: byte strings that render
/// alike are the same.
pub proof fn lemma_hex_reads_back(a: Seq<u8>, b: Seq<u8>)
    requires
        hex_of(a) == hex_of(b),
    ensures
        a == b,
{
    assert(hex_of(a).len() == 2 * a.len());
    assert(hex_of(b).len() == 2 * b.len());
    assert forall|i: int| 0 <= i < a.len() implies a[i] == b[i] by {
        let high_a = a[i] as int / 16;
        let high_b = b[i] as int / 16;
        let low_a = a[i] as int % 16;
        let low_b = b[i] as int % 16;
        assert((2 * i) % 2 == 0 && (2 * i) / 2 == i);
        assert((2 * i + 1) % 2 == 1 && (2 * i + 1) / 2 == i);
        assert(hex_of(a)[2 * i] == hex_digits()[high_a]);
        assert(hex_of(b)[2 * i] == hex_digits()[high_b]);
        assert(hex_of(a)[2 * i + 1] == hex_digits()[low_a]);
        assert(hex_of(b)[2 * i + 1] == hex_digits()[low_b]);
        assert(forall|m: int, n: int|
            0 <= m < 16 && 0 <= n < 16 && hex_digits()[m] == hex_digits()[n] ==> m == n);
        assert(high_a == high_b && low_a == low_b);
    }
    assert(a =~= b);
}

/// The content hash of a byte string: its SHA-256 digest in hexadecimal.
pub open spec fn digest_text(data: Seq<u8>) -> Seq<char> {
    hex_of(sha256_digest(data))
}

/// Calls `sha2::Sha256::digest`. Trusted: the result is the SHA-256 digest of
/// `data`, which is a function of `data` alone and always 32 bytes long.
#[verifier::external_body]
fn sha256(data: &[u8]) -> (digest: Vec<u8>)
    ensures
        digest@ == sha256_digest(data@),
        digest@.len() == 32,
{
    sha2::Sha256::digest(data).to_vec()
}

/// Calls `hex::encode`. Trusted: every input byte becomes two lowercase
/// hexadecimal digits, the high nibble first.
#[verifier::external_body]
fn hex_encode(bytes: &[u8]) -> (text: String)
    ensures
        text@ == hex_of(bytes@),
{
    hex::encode(bytes)
}

/// Hashes `data` and renders the digest as text.
pub fn sha256_hex(data: &[u8]) -> (text: String)
    ensures
        text@ == digest_text(data@),
        text@.len() == 64,
{
    let digest = sha256(data);
    hex_encode(digest.as_slice())
}

/// A content and the signature over it. Signatures are simulated: the
/// signature of a replica is its identifier.
#[derive(Clone, Debug, PartialEq, Eq)]
pub struct Signed<T, S> {
    pub content: T,
    pub signature: S,
}

/// The content hash of a block.
pub open spec fn block_digest(block: BlockView) -> Seq<char> {
    digest_text(block.encoding())
}

/// A block together with its content hash. The hash is computed once, when
/// the bundle is made, and neither part can be changed afterwards.
#[derive(Debug, PartialEq, Eq)]
pub struct Hashed {
    pub(crate) hash: CryptoHash,
    pub(crate) value: Block,
}

/// A block and a hash, mathematically.
pub struct HashedView {
    pub hash: Seq<char>,
    pub value: BlockView,
}

impl View for Hashed {
    type V = HashedView;

    closed spec fn view(&self) -> HashedView {
        HashedView { hash: self.hash@, value: self.value@ }
    }
}

impl Hashed {
    /// Bundles `artifact` with its content hash.
    pub fn new(artifact: Block) -> (hashed: Self)
        ensures
            hashed@.value == artifact@,
            hashed@.hash == block_digest(artifact@),
    {
        Self { hash: Hashed::calculate_hash(&artifact), value: artifact }
    }

    fn calculate_hash(artifact: &Block) -> (hash: CryptoHash)
        ensures
            hash@ == block_digest(artifact@),
    {
        let mut bytes: Vec<u8> = Vec::new();
        artifact.encode_into(&mut bytes);
        assert(bytes@ =~= artifact@.encoding());
        sha256_hex(bytes.as_slice())
    }

    /// Bundles `value` with `hash` if `hash` is its content hash; a hash
    /// that does not fit the block is refused.
    pub fn checked(hash: CryptoHash, value: Block) -> (hashed: Option<Self>)
        ensures
            hashed is Some <==> hash@ == block_digest(value@),
            hashed matches Some(bundle) ==> bundle@ == (HashedView {
                hash: hash@,
                value: value@,
            }),
    {
        if Hashed::calculate_hash(&value) == hash {
            Some(Self { hash, value })
        } else {
            None
        }
    }

    /// The content hash.
    pub fn hash(&self) -> (hash: &CryptoHash)
        ensures
            hash@ == self@.hash,
    {
        &self.hash
    }

    /// The block.
    pub fn value(&self) -> (value: &Block)
        ensures
            value@ == self@.value,
    {
        &self.value
    }
}

impl Clone for Hashed {
    fn clone(&self) -> (copy: Self)
        ensures
            copy@ == self@,
    {
        Self { hash: self.hash.clone(), value: self.value.clone() }
    }
}

/// The hash of a consensus message, tagged with the message's variant.
#[derive(Clone, Debug, PartialEq, Eq, Hash)]
pub enum ConsensusMessageHash {
    Notarization(CryptoHash),
    BlockProposal(CryptoHash),
}

impl ConsensusMessageHash {
    /// The hash inside, whatever the variant.
    pub open spec fn digest_spec(&self) -> CryptoHash {
        match self {
            ConsensusMessageHash::Notarization(hash) => *hash,
            ConsensusMessageHash::BlockProposal(hash) => *hash,
        }
    }

    pub fn digest(&self) -> (hash: &CryptoHash)
        ensures
            *hash == self.digest_spec(),
    {
        match self {
            ConsensusMessageHash::Notarization(hash) => hash,
            ConsensusMessageHash::BlockProposal(hash) => hash,
        }
    }
}

} // verus!
