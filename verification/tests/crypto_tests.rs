use fast_icc::consensus_layer::consensus_subcomponents::block_maker::{Block, Payload};
use fast_icc::crypto::{sha256_hex, ConsensusMessageHash, Hashed};

#[test]
fn sha256_hex_of_abc_is_the_known_digest() {
    assert_eq!(
        sha256_hex(b"abc"),
        "ba7816bf8f01cfea414140de5dae2223b00361a396177a9cb410ff61f20015ad"
    );
}

#[test]
fn sha256_hex_of_nothing_is_the_known_digest() {
    assert_eq!(
        sha256_hex(b""),
        "e3b0c44298fc1c149afbf4c8996fb92427ae41e4649b934ca495991b7852b855"
    );
}

#[test]
fn hashed_keeps_the_block_and_hashes_its_encoding() {
    let block = Block { parent: String::from("block0"), payload: Payload::new(3), height: 1, rank: 0 };
    let hashed = Hashed::new(block.clone());
    assert_eq!(hashed.value(), &block);
    // parent: length 6 then "block0"; payload: length 3 then three zero
    // bytes; height 1; rank 0.
    let mut bytes: Vec<u8> = Vec::new();
    bytes.extend_from_slice(&6u64.to_le_bytes());
    bytes.extend_from_slice(b"block0");
    bytes.extend_from_slice(&3u64.to_le_bytes());
    bytes.extend_from_slice(&[0, 0, 0]);
    bytes.extend_from_slice(&1u64.to_le_bytes());
    bytes.push(0);
    assert_eq!(hashed.hash(), &sha256_hex(&bytes));
    assert_eq!(hashed.hash().len(), 64);
}

#[test]
fn digest_returns_the_hash_of_either_variant() {
    let hash = String::from("abcd");
    assert_eq!(ConsensusMessageHash::Notarization(hash.clone()).digest(), &hash);
    assert_eq!(ConsensusMessageHash::BlockProposal(hash.clone()).digest(), &hash);
}

#[test]
fn checked_accepts_the_hash_of_the_block_and_no_other() {
    let block = Block { parent: String::from("p"), payload: Payload::new(0), height: 9, rank: 2 };
    let hash = Hashed::new(block.clone()).hash().clone();
    let bundle = Hashed::checked(hash.clone(), block.clone());
    assert_eq!(bundle, Some(Hashed::new(block.clone())));
    assert_eq!(Hashed::checked(String::from("block1"), block.clone()), None);
    let other = Block { parent: String::from("p"), payload: Payload::new(0), height: 9, rank: 3 };
    assert_eq!(Hashed::checked(hash, other), None);
}

#[test]
fn blocks_that_differ_in_one_field_have_different_hashes() {
    let base = Block { parent: String::from("p"), payload: Payload::new(2), height: 9, rank: 2 };
    let hash = Hashed::new(base.clone()).hash().clone();
    let mut other = base.clone();
    other.parent = String::from("q");
    assert_ne!(Hashed::new(other).hash(), &hash);
    let mut other = base.clone();
    other.payload = Payload::new(3);
    assert_ne!(Hashed::new(other).hash(), &hash);
    let mut other = base.clone();
    other.height = 10;
    assert_ne!(Hashed::new(other).hash(), &hash);
    let mut other = base.clone();
    other.rank = 0;
    assert_ne!(Hashed::new(other).hash(), &hash);
}

#[test]
fn payload_new_is_zero_bytes_of_the_size_asked_for() {
    assert_eq!(Payload::new(0).data, Vec::<u8>::new());
    assert_eq!(Payload::new(3).data, vec![0, 0, 0]);
}
