use marketplace_builder::block::digest_eq;
use marketplace_builder::block::BlockId;
use marketplace_builder::block::BuilderCommitment;
use marketplace_builder::block::BuilderStateId;
use marketplace_builder::block::ParentBlockReferences;
use marketplace_builder::block::VidCommitment;
use marketplace_builder::text::decimal_string;
use marketplace_builder::versions::Version01;
use marketplace_builder::versions::TestTypes;
use marketplace_builder::versions::VERSION_MAJ;
use marketplace_builder::versions::VERSION_MIN;

#[test]
fn builder_commitment_from_bytes_is_sha256() {
    let c = BuilderCommitment::from_bytes(&[0u8; 32]);
    assert_eq!(
        hex::encode(c.bytes),
        "66687aadf862bd776c8fc18b8e9f8e20089714856ee233b3902a591d0d5f2925"
    );
    assert_ne!(BuilderCommitment::from_bytes(&[]).bytes, c.bytes);
}

#[test]
fn bootstrap_references() {
    let r = ParentBlockReferences::bootstrap();
    assert_eq!(r.view_number, 0);
    assert_eq!(r.vid_commitment, VidCommitment::zero());
    assert_eq!(r.leaf_commit.bytes, [0u8; 32]);
    assert_eq!(r.builder_commitment, BuilderCommitment::from_bytes(&[0u8; 32]));
}

#[test]
fn digests_compare_bytewise() {
    let a = [3u8; 32];
    let mut b = a;
    assert!(digest_eq(&a, &b));
    b[31] = 4;
    assert!(!digest_eq(&a, &b));
    assert_ne!(VidCommitment { bytes: a }, VidCommitment { bytes: b });
}

#[test]
fn decimal_numerals() {
    assert_eq!(decimal_string(0), "0");
    assert_eq!(decimal_string(7), "7");
    assert_eq!(decimal_string(1200), "1200");
    assert_eq!(decimal_string(u64::MAX), "18446744073709551615");
}

#[test]
fn block_id_display() {
    let mut bytes = [0u8; 32];
    bytes[0] = 0xab;
    bytes[31] = 0x01;
    let id = BlockId { hash: BuilderCommitment { bytes }, view: 42 };
    assert_eq!(
        id.to_display_string(),
        format!("Block({}@42)", hex::encode(bytes))
    );
    assert!(id.to_display_string().starts_with("Block(ab00"));
}

#[test]
fn builder_state_id_display() {
    let id = BuilderStateId { parent_view: 7, parent_commitment: VidCommitment { bytes: [1u8; 32] } };
    let tb64 = tagged_base64::TaggedBase64::new("HASH", &[1u8; 32]).unwrap().to_string();
    assert_eq!(id.to_display_string(), format!("BuilderState({}@7)", tb64));
    assert!(id.to_display_string().starts_with("BuilderState(HASH~"));
}

#[test]
fn parent_block_references_display() {
    let r = ParentBlockReferences::bootstrap();
    assert_eq!(r.to_display_string(), "View Number: ViewNumber(0)");
}

#[test]
fn version_is_zero_one() {
    assert_eq!((VERSION_MAJ, VERSION_MIN), (0, 1));
    assert_eq!(Version01::base(), (0, 1));
    assert_eq!(Version01::upgrade(), (0, 1));
    assert_eq!(Version01::upgrade_hash(), [0u8; 32]);
    let _types = TestTypes;
}
