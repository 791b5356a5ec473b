use relay_core::codec::{decode, encode};
use relay_core::parachain::{
    Activity, AttestedCandidate, BlockData, CandidateReceipt, Chain, Collation, ConsolidatedIngress,
    ConsolidatedIngressRoots, DutyRoster, Extrinsic, HeadData, Id, Message, OutgoingMessage, PoVBlock,
    Statement, ValidityAttestation,
};

fn receipt() -> CandidateReceipt {
    CandidateReceipt {
        parachain_index: Id(5),
        collator: [1; 32],
        signature: [2; 64],
        head_data: HeadData(vec![1, 2, 3]),
        balance_uploads: vec![([3; 32], 100)],
        egress_queue_roots: vec![(Id(1), [4; 32]), (Id(2), [5; 32])],
        fees: 7,
        block_data_hash: [6; 32],
    }
}

#[test]
fn integers_are_little_endian() {
    assert_eq!(encode(&0x01020304u32), vec![4, 3, 2, 1]);
    assert_eq!(encode(&258u64), vec![2, 1, 0, 0, 0, 0, 0, 0]);
    assert_eq!(decode::<u32>(&[4, 3, 2, 1, 9]), Some(0x01020304));
    assert_eq!(decode::<u32>(&[4, 3, 2]), None);
}

#[test]
fn sequences_carry_length_prefix() {
    assert_eq!(encode(&vec![7u8, 8]), vec![2, 0, 0, 0, 0, 0, 0, 0, 7, 8]);
    assert_eq!(decode::<Vec<u8>>(&[3, 0, 0, 0, 0, 0, 0, 0, 7, 8]), None);
}

#[test]
fn chain_tags() {
    assert_eq!(encode(&Chain::Relay), vec![0]);
    assert_eq!(encode(&Chain::Parachain(Id(5))), vec![1, 5, 0, 0, 0]);
    assert_eq!(decode::<Chain>(&[2]), None);
}

#[test]
fn statement_and_attestation_tags() {
    assert_eq!(encode(&Statement::Valid([9; 32]))[0], 2);
    assert_eq!(encode(&Statement::Invalid([9; 32]))[0], 3);
    assert_eq!(encode(&Statement::Candidate(receipt()))[0], 1);
    assert_eq!(encode(&ValidityAttestation::Implicit([1; 64]))[0], 1);
    assert_eq!(encode(&ValidityAttestation::Explicit([1; 64]))[0], 2);
    assert_eq!(decode::<Statement>(&[4]), None);
    assert_eq!(decode::<ValidityAttestation>(&[3; 65]), None);
}

#[test]
fn round_trip_every_entity() {
    let r = receipt();
    assert_eq!(decode::<CandidateReceipt>(&encode(&r)), Some(r.clone()));
    let roster = DutyRoster { validator_duty: vec![Chain::Relay, Chain::Parachain(Id(3))] };
    assert_eq!(decode::<DutyRoster>(&encode(&roster)), Some(roster.clone()));
    let m = OutgoingMessage { target: Id(4), data: vec![1, 2] };
    assert_eq!(decode::<OutgoingMessage>(&encode(&m)), Some(m.clone()));
    let e = Extrinsic { outgoing_messages: vec![m.clone(), m.clone()] };
    assert_eq!(decode::<Extrinsic>(&encode(&e)), Some(e.clone()));
    let ingress = ConsolidatedIngress(vec![(Id(1), vec![Message(vec![1]), Message(vec![])])]);
    let pov = PoVBlock { block_data: BlockData(vec![9, 9]), ingress };
    assert_eq!(decode::<PoVBlock>(&encode(&pov)), Some(pov.clone()));
    let c = Collation { receipt: r.clone(), pov };
    assert_eq!(decode::<Collation>(&encode(&c)), Some(c.clone()));
    let roots = ConsolidatedIngressRoots(vec![(Id(2), [1; 32]), (Id(2), [2; 32])]);
    assert_eq!(decode::<ConsolidatedIngressRoots>(&encode(&roots)), Some(roots.clone()));
    let a = AttestedCandidate {
        candidate: r.clone(),
        validity_votes: vec![(0, ValidityAttestation::Implicit([1; 64])), (3, ValidityAttestation::Explicit([2; 64]))],
    };
    assert_eq!(decode::<AttestedCandidate>(&encode(&a)), Some(a.clone()));
    for s in [Statement::Candidate(r), Statement::Valid([1; 32]), Statement::Invalid([2; 32])] {
        assert_eq!(decode::<Statement>(&encode(&s)), Some(s.clone()));
    }
    let act = Activity(vec![0xff, 0]);
    assert_eq!(decode::<Activity>(&encode(&act)), Some(act.clone()));
    let h = HeadData(vec![]);
    assert_eq!(decode::<HeadData>(&encode(&h)), Some(h.clone()));
}

#[test]
fn decode_ignores_trailing_bytes() {
    let mut bytes = encode(&Chain::Parachain(Id(8)));
    bytes.push(0xaa);
    assert_eq!(decode::<Chain>(&bytes), Some(Chain::Parachain(Id(8))));
}

#[test]
fn truncated_receipt_is_refused() {
    let bytes = encode(&receipt());
    assert_eq!(decode::<CandidateReceipt>(&bytes[..bytes.len() - 1]), None);
}
