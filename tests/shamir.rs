use rand::{thread_rng, Rng};
use shamir_share::shamir_secret::{Shamir, Share, ShareError};

fn random_secret(size: usize) -> Vec<u8> {
    let mut random_secret = Vec::with_capacity(size);
    (0..size).for_each(|_| random_secret.push(thread_rng().gen::<u8>()));
    random_secret
}

fn test_separate_and_recover(size: usize, k: usize, n: usize) {
    let random_secret = random_secret(size);

    let shares = Shamir::separate(&random_secret, k, n).unwrap();
    let combined = Shamir::recover(&shares);

    assert_eq!(combined, random_secret);
}

fn test_separate_and_combine_insufficient_shares(size: usize, k: usize, n: usize) {
    let random_secret = random_secret(size);

    let shares = Shamir::separate(&random_secret, k, n).unwrap();
    let combined = Shamir::recover(&shares[0..k - 2]);

    assert_ne!(combined, random_secret);
}

#[test]
fn test_separate_and_recover_12_of_18() {
    test_separate_and_recover(27, 12, 18);
}

#[test]
fn test_separate_and_recover_2_of_2() {
    test_separate_and_recover(32, 2, 2);
}

#[test]
fn test_separate_and_recover_12_of_22() {
    test_separate_and_recover(32, 12, 22);
}

#[test]
fn test_separate_and_recover_insufficient() {
    test_separate_and_combine_insufficient_shares(28, 8, 15);
}

fn subset(shares: &[Share], picks: &[usize]) -> Vec<Share> {
    picks.iter().map(|&i| shares[i].clone()).collect()
}

#[test]
fn every_threshold_subset_recovers() {
    let secret = random_secret(20);
    let shares = Shamir::separate(&secret, 3, 5).unwrap();
    for a in 0..5 {
        for b in (a + 1)..5 {
            for c in (b + 1)..5 {
                assert_eq!(Shamir::recover(&subset(&shares, &[a, b, c])), secret);
            }
        }
    }
}

#[test]
fn more_than_threshold_recovers() {
    let secret = random_secret(16);
    let shares = Shamir::separate(&secret, 4, 9).unwrap();
    assert_eq!(Shamir::recover(&subset(&shares, &[8, 1, 5, 3, 0, 7])), secret);
}

#[test]
fn one_short_of_threshold_fails() {
    let secret = random_secret(32);
    let shares = Shamir::separate(&secret, 5, 8).unwrap();
    assert_ne!(Shamir::recover(&shares[0..4]), secret);
}

#[test]
fn threshold_one_single_share_recovers() {
    let secret = random_secret(24);
    let shares = Shamir::separate(&secret, 1, 6).unwrap();
    for share in shares.iter() {
        assert_eq!(Shamir::recover(std::slice::from_ref(share)), secret);
    }
}

#[test]
fn threshold_equal_to_count_needs_all() {
    let secret = random_secret(32);
    let shares = Shamir::separate(&secret, 2, 2).unwrap();
    assert_eq!(Shamir::recover(&shares), secret);
    assert_ne!(Shamir::recover(&shares[0..1]), secret);
    assert_ne!(Shamir::recover(&shares[1..2]), secret);
}

#[test]
fn largest_share_count_recovers() {
    let secret = random_secret(8);
    let shares = Shamir::separate(&secret, 254, 254).unwrap();
    assert_eq!(shares.len(), 254);
    assert_eq!(Shamir::recover(&shares), secret);
}

#[test]
fn invalid_threshold_is_rejected() {
    let secret = random_secret(10);
    assert_eq!(Shamir::separate(&secret, 0, 5).unwrap_err(), ShareError::InvalidThreshold);
    assert_eq!(Shamir::separate(&secret, 6, 5).unwrap_err(), ShareError::InvalidThreshold);
}

#[test]
fn invalid_share_count_is_rejected() {
    let secret = random_secret(10);
    assert_eq!(Shamir::separate(&secret, 3, 0).unwrap_err(), ShareError::InvalidShareCount);
    assert_eq!(Shamir::separate(&secret, 3, 255).unwrap_err(), ShareError::InvalidShareCount);
}

#[test]
fn empty_secret_gives_empty_shares() {
    let shares = Shamir::separate(&[], 2, 3).unwrap();
    assert_eq!(shares.len(), 3);
    assert_eq!(Shamir::recover(&shares), Vec::<u8>::new());
}

#[test]
fn shares_rebuilt_from_their_points_recover() {
    let secret = random_secret(12);
    let shares = Shamir::separate(&secret, 3, 4).unwrap();
    let rebuilt: Vec<Share> = shares[1..4]
        .iter()
        .map(|s| Share::from_points(s.points().clone()))
        .collect();
    assert_eq!(Shamir::recover(&rebuilt), secret);
    for share in shares.iter() {
        assert_eq!(share.points().len(), 12);
        assert!(share.points().iter().all(|&(x, _)| x.0 != 0));
    }
}

#[test]
fn coordinates_are_distinct_per_position() {
    let secret = random_secret(10);
    let shares = Shamir::separate(&secret, 3, 254).unwrap();
    for p in 0..10 {
        let mut seen = [false; 256];
        for share in shares.iter() {
            let x = share.points()[p].0 .0 as usize;
            assert!(x != 0);
            assert!(!seen[x]);
            seen[x] = true;
        }
    }
}

#[test]
fn threshold_two_any_pair_recovers() {
    let secret = random_secret(16);
    let shares = Shamir::separate(&secret, 2, 5).unwrap();
    for a in 0..5 {
        for b in 0..5 {
            if a != b {
                assert_eq!(Shamir::recover(&subset(&shares, &[a, b])), secret);
            }
        }
    }
}
