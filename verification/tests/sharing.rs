use rand::rngs::StdRng;
use rand::Rng;
use rand::SeedableRng;

use sss_rs::basic_sharing::{
    from_secret, from_secrets, from_secrets_no_points, normalize_coefficients, reconstruct_secret,
    reconstruct_secrets, reconstruct_secrets_no_points, reduce_share, expand_share,
    transpose_vec_matrix, Error,
};
use sss_rs::geometry::{gf_divide, gf_multiply};

fn basic_single_value(secret: u8, shares_to_create: u8, shares_required: u8) {
    let mut rand = StdRng::from_entropy();
    let shares = from_secret(secret, shares_required, shares_to_create, None, &mut rand).unwrap();
    let secret_decrypted = reconstruct_secret(shares);
    assert_eq!(secret, secret_decrypted);
}

#[test]
fn many_test() {
    let num_iters = 10;

    let mut rand = StdRng::seed_from_u64(123u64);

    for _ in 0..num_iters {
        let secret: u8 = rand.gen_range(1..256) as u8;
        let shares_required: u8 = rand.gen_range(2..10);
        let shares_to_create: u8 = shares_required + rand.gen_range(0..6);

        basic_single_value(secret, shares_to_create, shares_required);
    }
}

#[test]
fn transpose() {
    let matrix = vec![vec![1, 2, 3], vec![4, 5, 6], vec![7, 8, 9]];

    let matrix1 = vec![vec![1, 4, 7], vec![2, 5, 8], vec![3, 6, 9]];

    let matrix2 = vec![vec![1, 2, 3, 4], vec![5, 6, 7, 8]];

    let matrix3 = vec![vec![1, 5], vec![2, 6], vec![3, 7], vec![4, 8]];

    assert_eq!(transpose_vec_matrix(matrix).unwrap(), matrix1);
    assert_eq!(transpose_vec_matrix(matrix2).unwrap(), matrix3);
}

#[test]
fn large_data_and_benchmark() {
    let secret = "According to all known laws of aviation,
            there is no way a bee should be able to fly.
            Its wings are too small to get its fat little body off the ground.
            The bee, of course, flies anyway
            because bees don't care what humans think is impossible.";
    let shares_required = 5;
    let shares_to_create = 5;

    let mut rand = StdRng::from_entropy();
    let share_lists = from_secrets(
        secret.as_bytes(),
        shares_required,
        shares_to_create,
        None,
        &mut rand,
    )
    .unwrap();

    let recon_secret_vec = reconstruct_secrets(share_lists).unwrap();
    let recon_secret = String::from_utf8(recon_secret_vec).unwrap();

    assert_eq!(secret, &recon_secret[..])
}

#[test]
fn no_points() {
    let secret = vec![10, 20, 30, 40, 50];
    let n = 3;
    let mut rand = StdRng::from_entropy();
    let shares = from_secrets_no_points(&secret, n, n, None, &mut rand).unwrap();
    let recon = reconstruct_secrets_no_points(shares).unwrap();
    assert_eq!(secret, recon);
}

#[test]
fn concrete_vector_fixed_seed() {
    let secret = vec![10u8, 20, 30, 40, 50];
    let mut rand = StdRng::seed_from_u64(42u64);
    let shares = from_secrets_no_points(&secret, 3, 3, None, &mut rand).unwrap();
    assert_eq!(shares.len(), 3);
    for (i, share) in shares.iter().enumerate() {
        assert_eq!(share.len(), secret.len() + 1);
        assert_eq!(share[0], (i + 1) as u8);
    }
    let recon = reconstruct_secrets_no_points(shares).unwrap();
    assert_eq!(secret, recon);
}

#[test]
fn round_trip_from_share_subset() {
    let secret = b"a moderately long secret".to_vec();
    let mut rand = StdRng::seed_from_u64(7u64);
    let shares = from_secrets_no_points(&secret, 3, 5, None, &mut rand).unwrap();
    // any 3 of the 5 rows, in any order
    let subset = vec![shares[3].clone(), shares[0].clone(), shares[2].clone()];
    let recon = reconstruct_secrets_no_points(subset).unwrap();
    assert_eq!(secret, recon);
}

#[test]
fn too_few_shares_give_seed_dependent_garbage() {
    let secret = b"eight by".to_vec();
    let mut rand1 = StdRng::seed_from_u64(1u64);
    let mut rand2 = StdRng::seed_from_u64(2u64);
    let shares1 = from_secrets_no_points(&secret, 3, 3, None, &mut rand1).unwrap();
    let shares2 = from_secrets_no_points(&secret, 3, 3, None, &mut rand2).unwrap();
    // two of the three required shares: a value comes back, but not the secret,
    // and it changes with the randomness seed
    let recon1 =
        reconstruct_secrets_no_points(vec![shares1[0].clone(), shares1[1].clone()]).unwrap();
    let recon2 =
        reconstruct_secrets_no_points(vec![shares2[0].clone(), shares2[1].clone()]).unwrap();
    assert_ne!(recon1, secret);
    assert_ne!(recon2, secret);
    assert_ne!(recon1, recon2);
}

#[test]
fn transpose_unequal_rows_fail() {
    let matrix = vec![vec![1, 2, 3], vec![4, 5], vec![7, 8, 9]];
    assert_eq!(
        transpose_vec_matrix(matrix),
        Err(Error::InvalidMatrix {
            index_of_invalid_length_row: 1
        })
    );
}

#[test]
fn reconstruct_unequal_rows_fail() {
    let rows = vec![vec![1u8, 2, 3], vec![2, 5]];
    assert_eq!(
        reconstruct_secrets_no_points(rows),
        Err(Error::InvalidMatrix {
            index_of_invalid_length_row: 1
        })
    );
}

#[test]
fn boundary_single_share_fails() {
    let mut rand = StdRng::seed_from_u64(3u64);
    assert_eq!(
        from_secrets(&[1, 2, 3], 1, 1, None, &mut rand),
        Err(Error::InvalidNumberOfShares(1))
    );
}

#[test]
fn boundary_more_required_than_created_fails() {
    let mut rand = StdRng::seed_from_u64(3u64);
    assert_eq!(
        from_secrets(&[1, 2, 3], 3, 2, None, &mut rand),
        Err(Error::UnreconstructableSecret(2, 3))
    );
}

#[test]
fn boundary_empty_secret_fails() {
    let mut rand = StdRng::seed_from_u64(3u64);
    assert_eq!(
        from_secrets(&[], 2, 3, None, &mut rand),
        Err(Error::EmptySecretArray)
    );
}

#[test]
fn too_many_coefficients_fail() {
    let mut rand = StdRng::seed_from_u64(3u64);
    assert_eq!(
        from_secret(7, 2, 2, Some(vec![1, 2]), &mut rand),
        Err(Error::InvalidNumberOfCoefficients(1, 2))
    );
}

#[test]
fn division_by_zero_fails() {
    assert_eq!(gf_divide(5, 0), Err(Error::DivisionByZero));
    let q = gf_divide(6, 3).unwrap();
    assert_eq!(gf_multiply(q, 3), 6);
}

#[test]
fn compact_round_trip() {
    let row = vec![(3u8, 9u8), (3, 8), (3, 250)];
    let (x, ys) = reduce_share(row.clone());
    assert_eq!(x, 3);
    assert_eq!(ys, vec![9, 8, 250]);
    let mut compact = vec![x];
    compact.extend_from_slice(&ys);
    assert_eq!(expand_share(compact), row);
}

#[test]
fn reconstruct_single_point_returns_its_y() {
    assert_eq!(reconstruct_secret(vec![(5, 42)]), 42);
}

#[test]
fn normalize_pads_and_truncates() {
    let normalized =
        normalize_coefficients(3, Some(vec![vec![9], vec![1, 2, 3, 4]])).unwrap();
    assert_eq!(normalized, vec![vec![9, 0, 0], vec![1, 2, 3]]);
    assert_eq!(normalize_coefficients(3, None), None);
}

#[test]
fn fixed_coefficients_are_used() {
    // with required == total == 2 and position 1 fixed, the polynomial is
    // fully determined: f(x) = secret + c1*x
    let mut rand = StdRng::seed_from_u64(11u64);
    let shares = from_secret(0, 2, 2, Some(vec![1]), &mut rand).unwrap();
    // f(x) = 0 + 1*x = x in the field
    assert_eq!(shares, vec![(1, 1), (2, 2)]);
}
