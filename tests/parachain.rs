use ed25519_dalek::{Signer, SigningKey};
use relay_core::parachain::{
    AttestationError, AttestedCandidate, BlockData, CandidateError, CandidateReceipt, Chain, Collation,
    ConsolidatedIngress, ConsolidatedIngressRoots, DutyRoster, Extrinsic, HeadData, Id, OutgoingMessage,
    PoVBlock, SignatureError, ValidityAttestation,
};
use std::cmp::Ordering;

const HELLO_DIGEST: [u8; 32] = [
    50, 77, 207, 2, 125, 212, 163, 10, 147, 44, 68, 31, 54, 90, 37, 232, 107, 23, 61, 239, 164, 184,
    229, 137, 72, 37, 52, 113, 184, 27, 114, 207,
];

fn signed_receipt(roots: Vec<(Id, [u8; 32])>) -> CandidateReceipt {
    let key = SigningKey::from_bytes(&[7u8; 32]);
    let block_data_hash = BlockData(b"hello".to_vec()).hash();
    CandidateReceipt {
        parachain_index: Id(1),
        collator: key.verifying_key().to_bytes(),
        signature: key.sign(&block_data_hash).to_bytes(),
        head_data: HeadData(vec![1]),
        balance_uploads: vec![],
        egress_queue_roots: roots,
        fees: 0,
        block_data_hash,
    }
}

#[test]
fn block_data_digest() {
    assert_eq!(BlockData(b"hello".to_vec()).hash(), HELLO_DIGEST);
}

#[test]
fn valid_signature_is_accepted() {
    let r = signed_receipt(vec![]);
    assert_eq!(r.check_signature(), Ok(()));
    assert_eq!(r.validate(), Ok(()));
}

#[test]
fn flipped_bits_break_signature() {
    let mut r = signed_receipt(vec![]);
    r.block_data_hash[0] ^= 1;
    assert_eq!(r.check_signature(), Err(SignatureError));
    let mut r = signed_receipt(vec![]);
    r.signature[10] ^= 0x80;
    assert_eq!(r.check_signature(), Err(SignatureError));
    let mut r = signed_receipt(vec![]);
    r.collator[3] ^= 4;
    assert_eq!(r.check_signature(), Err(SignatureError));
    assert_eq!(r.validate(), Err(CandidateError::BadSignature));
}

#[test]
fn unsorted_egress_roots_are_rejected() {
    let r = signed_receipt(vec![(Id(3), [1; 32]), (Id(1), [2; 32])]);
    assert_eq!(r.check_egress_order(), Err(CandidateError::OrderingViolation));
    assert_eq!(r.validate(), Err(CandidateError::OrderingViolation));
}

#[test]
fn sorted_egress_roots_are_accepted() {
    let r = signed_receipt(vec![(Id(1), [1; 32]), (Id(1), [3; 32]), (Id(3), [2; 32])]);
    assert_eq!(r.check_egress_order(), Ok(()));
    assert_eq!(r.validate(), Ok(()));
}

#[test]
fn extrinsic_ordering() {
    let msg = |t: u32| OutgoingMessage { target: Id(t), data: vec![t as u8] };
    assert_eq!(Extrinsic { outgoing_messages: vec![] }.check_ordering(), Ok(()));
    assert_eq!(Extrinsic { outgoing_messages: vec![msg(1), msg(1), msg(4)] }.check_ordering(), Ok(()));
    assert_eq!(
        Extrinsic { outgoing_messages: vec![msg(2), msg(1)] }.check_ordering(),
        Err(CandidateError::OrderingViolation)
    );
    assert_eq!(msg(1).cmp(&msg(2)), Ordering::Less);
    assert_eq!(msg(2).cmp(&OutgoingMessage { target: Id(2), data: vec![] }), Ordering::Equal);
}

#[test]
fn receipt_hash_is_digest_of_encoding() {
    let r = signed_receipt(vec![(Id(1), [1; 32])]);
    let h = r.hash();
    assert_ne!(h, r.block_data_hash);
    let mut r2 = r.clone();
    r2.fees = 1;
    assert_ne!(r2.hash(), h);
    assert_eq!(r.clone().hash(), h);
}

#[test]
fn receipt_order_by_parachain_then_head() {
    let mut a = signed_receipt(vec![]);
    let mut b = signed_receipt(vec![]);
    a.parachain_index = Id(1);
    b.parachain_index = Id(2);
    assert_eq!(a.cmp(&b), Ordering::Less);
    assert_eq!(b.cmp(&a), Ordering::Greater);
    b.parachain_index = Id(1);
    a.head_data = HeadData(vec![1, 2]);
    b.head_data = HeadData(vec![1, 3]);
    assert_eq!(a.cmp(&b), Ordering::Less);
    b.head_data = HeadData(vec![1]);
    assert_eq!(a.cmp(&b), Ordering::Greater);
    b.head_data = HeadData(vec![1, 2]);
    b.fees = 99;
    assert_eq!(a.cmp(&b), Ordering::Equal);
}

#[test]
fn collation_block_data_must_match() {
    let pov = PoVBlock { block_data: BlockData(b"hello".to_vec()), ingress: ConsolidatedIngress(vec![]) };
    let c = Collation { receipt: signed_receipt(vec![]), pov: pov.clone() };
    assert_eq!(c.check_block_data(), Ok(()));
    let bad = Collation {
        receipt: signed_receipt(vec![]),
        pov: PoVBlock { block_data: BlockData(b"hellp".to_vec()), ingress: ConsolidatedIngress(vec![]) },
    };
    assert_eq!(bad.check_block_data(), Err(CandidateError::BlockDataMismatch));
}

#[test]
fn vote_from_out_of_range_validator_is_rejected() {
    let roster = DutyRoster { validator_duty: vec![Chain::Parachain(Id(1)), Chain::Relay] };
    let a = AttestedCandidate {
        candidate: signed_receipt(vec![]),
        validity_votes: vec![(0, ValidityAttestation::Implicit([1; 64])), (5, ValidityAttestation::Explicit([2; 64]))],
    };
    assert_eq!(a.check_votes(&roster), Err(AttestationError::ValidatorOutOfRange(5)));
}

#[test]
fn vote_from_unassigned_validator_is_rejected() {
    let roster = DutyRoster { validator_duty: vec![Chain::Parachain(Id(1)), Chain::Relay] };
    let a = AttestedCandidate {
        candidate: signed_receipt(vec![]),
        validity_votes: vec![(1, ValidityAttestation::Explicit([2; 64]))],
    };
    assert_eq!(a.check_votes(&roster), Err(AttestationError::NotAssigned(1)));
    let ok = AttestedCandidate {
        candidate: signed_receipt(vec![]),
        validity_votes: vec![(0, ValidityAttestation::Explicit([2; 64])), (0, ValidityAttestation::Implicit([2; 64]))],
    };
    assert_eq!(ok.check_votes(&roster), Ok(()));
    assert_eq!(ok.parachain_index(), Id(1));
    assert_eq!(ok.candidate(), &ok.candidate);
}

#[test]
fn ingress_roots_from_vec() {
    let v = vec![(Id(2), [1u8; 32]), (Id(1), [2u8; 32])];
    let roots: ConsolidatedIngressRoots = v.clone().into();
    assert_eq!(roots, ConsolidatedIngressRoots(v));
    assert_eq!(Id(9).into_inner(), 9);
}
