use relay_core::curated_grandpa::{shuffle_voters, CurationError, CuratedGrandpa, Origin, Voter};

fn voter(tag: u8, weight: u64) -> Voter {
    ([tag; 32], weight)
}

fn four_voters() -> Vec<Voter> {
    vec![voter(b'A', 1), voter(b'B', 2), voter(b'C', 3), voter(b'D', 4)]
}

fn beacon() -> Vec<u8> {
    (0u8..32).collect()
}

#[test]
fn shuffle_four_voters_at_period_boundary() {
    let module = CuratedGrandpa { shuffle_period: 10 };
    let r = module.on_finalize(10, four_voters(), &beacon());
    let expected = vec![voter(b'A', 1), voter(b'C', 3), voter(b'B', 2), voter(b'D', 4)];
    assert_eq!(r, Some(expected));
}

#[test]
fn no_shuffle_off_period_boundary() {
    let module = CuratedGrandpa { shuffle_period: 10 };
    assert_eq!(module.on_finalize(11, four_voters(), &beacon()), None);
}

#[test]
fn no_shuffle_when_period_is_zero() {
    let module = CuratedGrandpa { shuffle_period: 0 };
    for n in [0u64, 1, 10, 100] {
        assert_eq!(module.on_finalize(n, four_voters(), &beacon()), None);
    }
}

#[test]
fn no_shuffle_of_empty_voter_set() {
    let module = CuratedGrandpa { shuffle_period: 10 };
    assert_eq!(module.on_finalize(20, Vec::new(), &beacon()), None);
    assert_eq!(shuffle_voters(Vec::new(), &beacon()), Vec::<Voter>::new());
}

#[test]
fn shuffle_rehashes_seed_for_long_sets() {
    let voters: Vec<Voter> = (0u8..12).map(|i| voter(i, i as u64)).collect();
    let r = shuffle_voters(voters, &beacon());
    let order: Vec<u8> = r.iter().map(|v| v.0[0]).collect();
    assert_eq!(order, vec![4, 0, 2, 11, 1, 9, 3, 6, 10, 5, 8, 7]);
}

#[test]
fn shuffle_uses_whole_short_beacon() {
    let voters: Vec<Voter> = (0u8..3).map(|i| voter(i, 0)).collect();
    let r = shuffle_voters(voters, &[9, 9]);
    let order: Vec<u8> = r.iter().map(|v| v.0[0]).collect();
    assert_eq!(order, vec![2, 0, 1]);
}

#[test]
fn shuffle_is_a_permutation() {
    let voters: Vec<Voter> = (0u8..20).map(|i| voter(i % 7, (i % 3) as u64)).collect();
    let r = shuffle_voters(voters.clone(), &[5u8; 64]);
    assert_eq!(r.len(), voters.len());
    let mut a = voters.clone();
    let mut b = r.clone();
    a.sort();
    b.sort();
    assert_eq!(a, b);
}

#[test]
fn shuffle_is_deterministic() {
    let module = CuratedGrandpa { shuffle_period: 5 };
    let voters: Vec<Voter> = (0u8..9).map(|i| voter(i, 1)).collect();
    let r1 = module.on_finalize(15, voters.clone(), &[3u8; 40]);
    let r2 = module.on_finalize(15, voters, &[3u8; 40]);
    assert!(r1.is_some());
    assert_eq!(r1, r2);
}

#[test]
fn single_voter_is_kept() {
    let r = shuffle_voters(vec![voter(1, 1)], &beacon());
    assert_eq!(r, vec![voter(1, 1)]);
}

#[test]
fn set_voters_needs_root() {
    assert_eq!(CuratedGrandpa::set_voters(Origin::Root, four_voters()), Ok(four_voters()));
    assert_eq!(
        CuratedGrandpa::set_voters(Origin::Signed([1; 32]), four_voters()),
        Err(CurationError::BadOrigin)
    );
    assert_eq!(CuratedGrandpa::set_voters(Origin::Unsigned, four_voters()), Err(CurationError::BadOrigin));
}

#[test]
fn shuffle_period_getter() {
    assert_eq!(CuratedGrandpa { shuffle_period: 7 }.shuffle_period(), 7);
}
