use rand::rngs::StdRng;
use rand::SeedableRng;

use sss_rs::basic_sharing::reconstruct_secrets_no_points;
use sss_rs::derived_share::{derived_share, derived_share_hex, with_derived_share};

#[test]
fn derive_is_order_and_case_insensitive_here() {
    let a = derived_share(vec!["Arnold", "crab"]);
    let b = derived_share(vec!["crab", "Arnold"]);
    let c = derived_share(vec!["ARNOLD", "CRAB"]);
    assert_eq!(a, b);
    assert_eq!(a, c);
    assert_eq!(a.len(), 32);
}

#[test]
fn derive_hashes_sorted_folded_answers() {
    // one answer: folded to lowercase, then hashed
    let single = derived_share(vec!["A"]);
    assert_eq!(single.as_slice(), blake3::hash(b"a").as_bytes());
    // two answers: sorted before concatenation
    let double = derived_share(vec!["b", "a"]);
    assert_eq!(double.as_slice(), blake3::hash(b"ab").as_bytes());
}

#[test]
fn derive_hex_matches_digits() {
    let digest = derived_share(vec!["a"]);
    let mut expected = String::new();
    for byte in &digest {
        expected.push_str(&format!("{:02x}", byte));
    }
    assert_eq!(derived_share_hex(vec!["a"]), expected);
    assert_eq!(expected.len(), 64);
}

#[test]
fn derived_share_reconstruction() {
    let secret: Vec<u8> = (1u8..=16).collect();
    let seeds = vec!["Arnold", "crab"];
    let mut rand = StdRng::seed_from_u64(99u64);
    let shares = with_derived_share(&secret, seeds.clone(), 2, 3, &mut rand).unwrap();
    assert_eq!(shares.len(), 3);

    // the share at the reserved index 3 equals the re-derived value
    let derived = derived_share(seeds);
    let mut derived_row = vec![3u8];
    derived_row.extend_from_slice(&derived[..secret.len()]);
    assert_eq!(hex::decode(&shares[2]).unwrap(), derived_row);

    // one stored share plus the re-derived share recover the secret
    let stored = hex::decode(&shares[0]).unwrap();
    let recon = reconstruct_secrets_no_points(vec![stored, derived_row]).unwrap();
    assert_eq!(secret, recon);
}

#[test]
fn with_derived_share_needs_two_required() {
    let mut rand = StdRng::seed_from_u64(5u64);
    let r = with_derived_share(&[1, 2, 3], vec!["a"], 1, 2, &mut rand);
    assert_eq!(
        r,
        Err(sss_rs::basic_sharing::Error::InvalidNumberOfCoefficients(0, 1))
    );
}
