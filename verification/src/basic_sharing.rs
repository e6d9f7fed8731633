//! Splitting a multi-byte secret into shares and reconstructing it.
//!
//! One polynomial is built per secret byte: its constant term is the byte,
//! the remaining coefficients are caller-fixed or drawn from the caller's
//! randomness source, and each participant p receives the polynomial's value
//! at x = p + 1 (x = 0 is reserved: it evaluates to the secret itself).
//! The byte-major matrix of points is transposed into participant-major
//! share rows. Reconstruction interpolates each byte's points at x = 0.
//!
//! Too few shares at reconstruction are deliberately not detected: the
//! result is then a well-defined but meaningless byte string.

use vstd::prelude::*;

use crate::geometry::GaloisPolynomial;
use crate::geometry::interp_at_zero;
use crate::geometry::poly_eval;

verus! {

/// Everything a split or reconstruct call can fail with. These are all
/// synchronous input-validation failures.
#[derive(Clone, Copy, Debug, PartialEq, Eq)]
pub enum Error {
    /// Fewer shares were handed in than the scheme requires.
    NotEnoughShares { given: u8, required: u8 },
    /// A row of the share matrix differs in length from the rows before it.
    InvalidMatrix { index_of_invalid_length_row: usize },
    /// Fewer than two shares were requested.
    InvalidNumberOfShares(u8),
    /// More fixed coefficients were supplied than the polynomial has free
    /// positions: (greatest allowed count, supplied count).
    InvalidNumberOfCoefficients(u8, u8),
    /// More shares would be required for reconstruction than are created:
    /// (shares to create, shares required).
    UnreconstructableSecret(u8, u8),
    /// The secret byte sequence is empty.
    EmptySecretArray,
    /// Field division by the zero element.
    DivisionByZero,
}

/// The source of the random polynomial coefficients. Nothing is assumed of
/// the generator's state; the library only relies on the range of each draw.
#[verifier::external_type_specification]
#[verifier::external_body]
pub struct ExStdRng(rand::rngs::StdRng);

/// Relies on rand's `Rng::gen_range(2..255)`: the range is non-empty, so the
/// call does not panic and returns a value of that range, [2, 254]. Which
/// value comes back is left entirely open.
#[verifier::external_body]
fn next_coefficient(rand: &mut rand::rngs::StdRng) -> (r: u8)
    ensures
        2 <= r <= 254,
{
    rand::Rng::gen_range(rand, 2u8..255u8)
}

/// The caller-fixed low coefficients, as a sequence (empty when none were
/// supplied).
pub open spec fn given_of(coefficients: Option<Vec<u8>>) -> Seq<u8> {
    match coefficients {
        Option::None => Seq::<u8>::empty(),
        Option::Some(c) => c@,
    }
}

/// Greatest number of coefficients a caller may fix: one less than the
/// polynomial's length, which is `shares_required`.
pub open spec fn max_fixed_coefficients(shares_required: u8) -> u8 {
    if shares_required == 0 {
        0u8
    } else {
        (shares_required - 1) as u8
    }
}

/// Whether the number of caller-fixed coefficients fits the polynomial:
/// none were supplied, or at most `shares_required - 1` were.
pub open spec fn coeff_count_ok(coefficients: Option<Vec<u8>>, shares_required: u8) -> bool {
    match coefficients {
        Option::None => true,
        Option::Some(c) => c@.len() <= shares_required as int - 1,
    }
}

/// `coeff_count_ok` for whole coefficient columns.
pub open spec fn coeff_cols_ok(coefficients: Option<Vec<Vec<u8>>>, shares_required: u8) -> bool {
    match coefficients {
        Option::None => true,
        Option::Some(c) => c@.len() <= shares_required as int - 1,
    }
}

/// Shape of one secret byte's polynomial: position 0 is the byte, the next
/// `given.len()` positions are the caller-fixed coefficients, every later
/// position was drawn from the randomness source and lies in [2, 254].
pub open spec fn share_poly_shape(secret: u8, shares_required: u8, given: Seq<u8>, poly: Seq<u8>) -> bool {
    &&& poly.len() == if shares_required <= 1 {
        1int
    } else {
        shares_required as int
    }
    &&& poly[0] == secret
    &&& forall|j: int| 1 <= j <= given.len() ==> #[trigger] poly[j] == given[j - 1]
    &&& forall|j: int| given.len() + 1 <= j < poly.len() ==> 2 <= #[trigger] poly[j] <= 254
}

/// The share points of one byte: point k is (k + 1, poly(k + 1)).
pub open spec fn shares_match(shares: Seq<(u8, u8)>, poly: Seq<u8>, shares_to_create: u8) -> bool {
    &&& shares.len() == shares_to_create as int
    &&& forall|k: int|
        0 <= k < shares.len() ==> shares[k] == (((k + 1) as u8), poly_eval(poly, (k + 1) as u8))
}

/// Creates the list of share points for a single byte of data.
///
/// The polynomial's constant term is `secret`; `coefficients` fixes the
/// low positions verbatim; the remaining positions up to degree
/// `shares_required - 1` are drawn from `rand`, restricted to [2, 254].
/// The points are the polynomial's values at x = 1 ..= `shares_to_create`.
pub fn from_secret(
    secret: u8,
    shares_required: u8,
    shares_to_create: u8,
    coefficients: Option<Vec<u8>>,
    rand: &mut rand::rngs::StdRng,
) -> (r: Result<Vec<(u8, u8)>, Error>)
    ensures
        shares_required > shares_to_create ==> r == Err::<Vec<(u8, u8)>, Error>(
            Error::UnreconstructableSecret(shares_to_create, shares_required),
        ),
        shares_required <= shares_to_create && shares_to_create < 2 ==> r == Err::<
            Vec<(u8, u8)>,
            Error,
        >(Error::InvalidNumberOfShares(shares_to_create)),
        shares_required <= shares_to_create && shares_to_create >= 2 && !coeff_count_ok(
            coefficients,
            shares_required,
        ) ==> r == Err::<Vec<(u8, u8)>, Error>(
            Error::InvalidNumberOfCoefficients(
                max_fixed_coefficients(shares_required),
                (given_of(coefficients).len() % 256) as u8,
            ),
        ),
        shares_required <= shares_to_create && shares_to_create >= 2 && coeff_count_ok(
            coefficients,
            shares_required,
        ) ==> (r matches Ok(shares) && exists|poly: Seq<u8>|
            #![trigger share_poly_shape(secret, shares_required, given_of(coefficients), poly)]
            share_poly_shape(secret, shares_required, given_of(coefficients), poly)
                && shares_match(shares@, poly, shares_to_create)),
{
    if shares_required > shares_to_create {
        return Err(Error::UnreconstructableSecret(shares_to_create, shares_required));
    }
    if shares_to_create < 2 {
        return Err(Error::InvalidNumberOfShares(shares_to_create));
    }
    let mut share_poly = GaloisPolynomial::new();
    share_poly.set_coeff(secret, 0);
    proof {
        assert(share_poly.coeffs@ =~= seq![secret]);
    }
    let ghost given = given_of(coefficients);
    let mut start_index: usize = 1;
    match coefficients {
        Option::Some(c) => {
            if shares_required == 0 || c.len() > (shares_required - 1) as usize {
                let supplied: u8 = (c.len() % 256) as u8;
                return Err(
                    Error::InvalidNumberOfCoefficients(
                        max_fixed_coefficients_exec(shares_required),
                        supplied,
                    ),
                );
            }
            let mut j: usize = 0;
            while j < c.len()
                invariant
                    j <= c.len(),
                    c.len() <= shares_required - 1,
                    c@ == given,
                    share_poly.coeffs@ =~= seq![secret] + c@.take(j as int),
                decreases c.len() - j,
            {
                let ghost before = share_poly.coeffs@;
                share_poly.set_coeff(c[j], j + 1);
                proof {
                    assert(before.len() == j + 1);
                    assert(share_poly.coeffs@ =~= before + seq![c@[j as int]]);
                    assert(share_poly.coeffs@ =~= seq![secret] + c@.take(j as int + 1));
                }
                j = j + 1;
            }
            start_index = c.len() + 1;
            proof {
                assert(c@.take(c@.len() as int) =~= c@);
            }
        },
        Option::None => {
        },
    }
    let mut i: usize = start_index;
    while i < shares_required as usize
        invariant
            1 <= start_index <= i,
            start_index == given.len() + 1,
            given.len() <= max_fixed_coefficients(shares_required),
            i <= shares_required as usize || i == start_index,
            share_poly.coeffs@.len() == i,
            share_poly.coeffs@[0] == secret,
            forall|j: int| 1 <= j <= given.len() ==> share_poly.coeffs@[j] == given[j - 1],
            forall|j: int|
                given.len() + 1 <= j < share_poly.coeffs@.len() ==> 2 <= #[trigger] share_poly.coeffs@[j]
                    <= 254,
        decreases shares_required as int - i,
    {
        let co = next_coefficient(rand);
        let ghost before = share_poly.coeffs@;
        share_poly.set_coeff(co, i);
        proof {
            assert(share_poly.coeffs@ =~= before + seq![co]);
        }
        i = i + 1;
    }
    proof {
        assert(share_poly_shape(secret, shares_required, given, share_poly.coeffs@));
    }
    let mut shares: Vec<(u8, u8)> = Vec::new();
    let mut k: usize = 0;
    while k < shares_to_create as usize
        invariant
            k <= shares_to_create as usize,
            shares_to_create >= 2,
            shares@.len() == k,
            forall|m: int|
                0 <= m < k ==> shares@[m] == (
                    ((m + 1) as u8),
                    poly_eval(share_poly.coeffs@, (m + 1) as u8),
                ),
        decreases shares_to_create as int - k,
    {
        let x = (k + 1) as u8;
        let y = share_poly.get_y_value(x);
        shares.push((x, y));
        k = k + 1;
    }
    proof {
        assert(shares_match(shares@, share_poly.coeffs@, shares_to_create));
        assert(share_poly_shape(
            secret,
            shares_required,
            given_of(coefficients),
            share_poly.coeffs@,
        ) && shares_match(shares@, share_poly.coeffs@, shares_to_create));
    }
    Ok(shares)
}

/// Exec twin of `max_fixed_coefficients`.
fn max_fixed_coefficients_exec(shares_required: u8) -> (r: u8)
    ensures
        r == max_fixed_coefficients(shares_required),
{
    if shares_required == 0 {
        0
    } else {
        shares_required - 1
    }
}

/// Reconstructs the secret byte behind a list of share points by Lagrange
/// interpolation at x = 0.
///
/// No count is validated: fewer points than were required at split time
/// yield a well-defined but unrelated byte, not an error.
pub fn reconstruct_secret(shares: Vec<(u8, u8)>) -> (r: u8)
    requires
        forall|i: int, j: int| 0 <= i < j < shares@.len() ==> shares@[i].0 != shares@[j].0,
    ensures
        r == interp_at_zero(shares@),
{
    GaloisPolynomial::get_y_intercept_from_points(shares.as_slice())
}

/// One coefficient column brought to the secret's length: truncated when
/// longer, right-padded with zero bytes when shorter.
pub open spec fn normalize_col(col: Seq<u8>, n: int) -> Seq<u8> {
    if col.len() >= n {
        col.take(n)
    } else {
        col + Seq::new((n - col.len()) as nat, |_i: int| 0u8)
    }
}

/// Brings every coefficient column to the secret's length: longer columns
/// are truncated, shorter ones right-padded with zero bytes. A deliberately
/// lossy normalization, not an error.
pub fn normalize_coefficients(secret_len: usize, coefficients: Option<Vec<Vec<u8>>>) -> (r: Option<
    Vec<Vec<u8>>,
>)
    ensures
        coefficients is None ==> r is None,
        coefficients matches Some(cols) ==> r matches Some(out) && out@.len() == cols@.len()
            && forall|j: int|
            0 <= j < cols@.len() ==> out@[j]@ == normalize_col(cols@[j]@, secret_len as int),
{
    match coefficients {
        Option::None => Option::None,
        Option::Some(cols) => {
            let mut out: Vec<Vec<u8>> = Vec::new();
            let mut j: usize = 0;
            while j < cols.len()
                invariant
                    j <= cols@.len(),
                    out@.len() == j,
                    forall|q: int|
                        0 <= q < j ==> out@[q]@ == normalize_col(cols@[q]@, secret_len as int),
                decreases cols@.len() - j,
            {
                let col = &cols[j];
                let mut fixed: Vec<u8> = Vec::new();
                let limit = if col.len() >= secret_len {
                    secret_len
                } else {
                    col.len()
                };
                let mut k: usize = 0;
                while k < limit
                    invariant
                        k <= limit,
                        limit <= col@.len(),
                        col == cols@[j as int],
                        j < cols@.len(),
                        fixed@ == col@.take(k as int),
                    decreases limit - k,
                {
                    fixed.push(col[k]);
                    proof {
                        assert(fixed@ =~= col@.take(k as int + 1));
                    }
                    k = k + 1;
                }
                proof {
                    assert(fixed@.take(limit as int) =~= col@.take(limit as int));
                }
                while k < secret_len
                    invariant
                        limit <= k <= secret_len,
                        limit <= col@.len(),
                        col == cols@[j as int],
                        j < cols@.len(),
                        fixed@.len() == k,
                        fixed@.take(limit as int) == col@.take(limit as int),
                        forall|m: int| limit <= m < k ==> fixed@[m] == 0u8,
                    decreases secret_len - k,
                {
                    fixed.push(0);
                    proof {
                        assert(fixed@.take(limit as int) =~= col@.take(limit as int));
                    }
                    k = k + 1;
                }
                proof {
                    if limit == secret_len {
                        assert(fixed@ =~= col@.take(secret_len as int));
                    } else {
                        assert(limit == col@.len());
                        assert forall|m: int| 0 <= m < limit implies fixed@[m] == col@[m] by {
                            assert(fixed@.take(limit as int)[m] == col@.take(limit as int)[m]);
                        }
                        assert(fixed@ =~= col@ + Seq::new(
                            (secret_len - col@.len()) as nat,
                            |_i: int| 0u8,
                        ));
                    }
                    assert(fixed@ =~= normalize_col(cols@[j as int]@, secret_len as int));
                }
                out.push(fixed);
                j = j + 1;
            }
            Option::Some(out)
        },
    }
}

/// The number of coefficient columns handed in (zero when none were).
pub open spec fn cols_of(coefficients: Option<Vec<Vec<u8>>>) -> Seq<Vec<u8>> {
    match coefficients {
        Option::None => Seq::<Vec<u8>>::empty(),
        Option::Some(cols) => cols@,
    }
}

/// The caller-fixed coefficients that reach secret byte `b`: entry `j` is
/// byte `b` of the normalized column `j`.
pub open spec fn given_col(coefficients: Option<Vec<Vec<u8>>>, secret_len: int, b: int) -> Seq<u8> {
    Seq::new(cols_of(coefficients).len(), |j: int| normalize_col(cols_of(coefficients)[j]@, secret_len)[b])
}

/// One polynomial per secret byte, each shaped as `share_poly_shape` asks
/// with that byte as constant term and its column of fixed coefficients.
pub open spec fn polys_shape(
    secret: Seq<u8>,
    shares_required: u8,
    coefficients: Option<Vec<Vec<u8>>>,
    polys: Seq<Seq<u8>>,
) -> bool {
    &&& polys.len() == secret.len()
    &&& forall|b: int|
        0 <= b < secret.len() ==> share_poly_shape(
            secret[b],
            shares_required,
            given_col(coefficients, secret.len() as int, b),
            polys[b],
        )
}

/// Participant-major share rows: row p holds, for every secret byte b, the
/// point (p + 1, polys[b](p + 1)).
pub open spec fn rows_match(
    rows: Seq<Vec<(u8, u8)>>,
    polys: Seq<Seq<u8>>,
    shares_to_create: u8,
    nbytes: int,
) -> bool {
    &&& rows.len() == shares_to_create as int
    &&& forall|p: int| 0 <= p < rows.len() ==> rows[p]@.len() == nbytes
    &&& forall|p: int, b: int|
        0 <= p < rows.len() && 0 <= b < nbytes ==> rows[p]@[b] == (
            ((p + 1) as u8),
            poly_eval(polys[b], (p + 1) as u8),
        )
}

/// Splits a whole secret: one polynomial per byte (sharing one randomness
/// stream across all bytes), then the byte-major matrix of points is
/// transposed into one row per participant.
pub fn from_secrets(
    secret: &[u8],
    shares_required: u8,
    shares_to_create: u8,
    coefficients: Option<Vec<Vec<u8>>>,
    rand: &mut rand::rngs::StdRng,
) -> (r: Result<Vec<Vec<(u8, u8)>>, Error>)
    ensures
        secret@.len() == 0 ==> r == Err::<Vec<Vec<(u8, u8)>>, Error>(Error::EmptySecretArray),
        secret@.len() > 0 && shares_required > shares_to_create ==> r == Err::<
            Vec<Vec<(u8, u8)>>,
            Error,
        >(Error::UnreconstructableSecret(shares_to_create, shares_required)),
        secret@.len() > 0 && shares_required <= shares_to_create && shares_to_create < 2 ==> r
            == Err::<Vec<Vec<(u8, u8)>>, Error>(Error::InvalidNumberOfShares(shares_to_create)),
        secret@.len() > 0 && shares_required <= shares_to_create && shares_to_create >= 2
            && !coeff_cols_ok(coefficients, shares_required) ==> r == Err::<
            Vec<Vec<(u8, u8)>>,
            Error,
        >(
            Error::InvalidNumberOfCoefficients(
                max_fixed_coefficients(shares_required),
                (cols_of(coefficients).len() % 256) as u8,
            ),
        ),
        secret@.len() > 0 && shares_required <= shares_to_create && shares_to_create >= 2
            && coeff_cols_ok(coefficients, shares_required) ==> (r matches Ok(rows) && exists|
            polys: Seq<Seq<u8>>,
        |
            #![auto]
            polys_shape(secret@, shares_required, coefficients, polys) && rows_match(
                rows@,
                polys,
                shares_to_create,
                secret@.len() as int,
            )),
{
    if secret.len() == 0 {
        return Err(Error::EmptySecretArray);
    }
    if shares_required > shares_to_create {
        return Err(Error::UnreconstructableSecret(shares_to_create, shares_required));
    }
    if shares_to_create < 2 {
        return Err(Error::InvalidNumberOfShares(shares_to_create));
    }
    let ghost ghost_coefficients = coefficients;
    match &coefficients {
        Option::Some(cols) => {
            if shares_required == 0 || cols.len() > (shares_required - 1) as usize {
                let supplied: u8 = (cols.len() % 256) as u8;
                return Err(
                    Error::InvalidNumberOfCoefficients(
                        max_fixed_coefficients_exec(shares_required),
                        supplied,
                    ),
                );
            }
        },
        Option::None => {
        },
    }
    let secret_len = secret.len();
    let normalized = normalize_coefficients(secret_len, coefficients);
    let mut list_of_share_lists: Vec<Vec<(u8, u8)>> = Vec::new();
    let ghost mut polys: Seq<Seq<u8>> = Seq::empty();
    let mut b: usize = 0;
    while b < secret_len
        invariant
            b <= secret_len,
            secret_len == secret@.len(),
            secret_len >= 1,
            shares_required <= shares_to_create,
            shares_to_create >= 2,
            coeff_cols_ok(ghost_coefficients, shares_required),
            normalized is None <==> ghost_coefficients is None,
            normalized matches Some(cols) ==> cols@.len() == cols_of(ghost_coefficients).len()
                && forall|j: int|
                0 <= j < cols@.len() ==> cols@[j]@ == normalize_col(
                    cols_of(ghost_coefficients)[j]@,
                    secret_len as int,
                ),
            polys.len() == b,
            list_of_share_lists@.len() == b,
            forall|bb: int|
                0 <= bb < b ==> share_poly_shape(
                    secret@[bb],
                    shares_required,
                    given_col(ghost_coefficients, secret_len as int, bb),
                    polys[bb],
                ),
            forall|bb: int|
                0 <= bb < b ==> shares_match(list_of_share_lists@[bb]@, polys[bb], shares_to_create),
        decreases secret_len - b,
    {
        let coeff: Option<Vec<u8>> = match &normalized {
            Option::None => Option::None,
            Option::Some(cols) => {
                let mut v: Vec<u8> = Vec::new();
                let mut j: usize = 0;
                while j < cols.len()
                    invariant
                        j <= cols@.len(),
                        b < secret_len,
                        secret_len == secret@.len(),
                        v@.len() == j,
                        normalized == Option::Some(*cols),
                        cols@.len() == cols_of(ghost_coefficients).len(),
                        forall|q: int|
                            0 <= q < cols@.len() ==> cols@[q]@ == normalize_col(
                                cols_of(ghost_coefficients)[q]@,
                                secret_len as int,
                            ),
                        forall|q: int|
                            0 <= q < j ==> v@[q] == given_col(
                                ghost_coefficients,
                                secret_len as int,
                                b as int,
                            )[q],
                    decreases cols@.len() - j,
                {
                    proof {
                        assert(cols@[j as int]@.len() == secret_len);
                    }
                    v.push(cols[j][b]);
                    j = j + 1;
                }
                Option::Some(v)
            },
        };
        proof {
            assert(given_of(coeff) =~= given_col(ghost_coefficients, secret_len as int, b as int));
        }
        match from_secret(secret[b], shares_required, shares_to_create, coeff, rand) {
            Ok(shares) => {
                proof {
                    let poly = choose|poly: Seq<u8>|
                        #![auto]
                        share_poly_shape(
                            secret@[b as int],
                            shares_required,
                            given_col(ghost_coefficients, secret_len as int, b as int),
                            poly,
                        ) && shares_match(shares@, poly, shares_to_create);
                    polys = polys.push(poly);
                }
                list_of_share_lists.push(shares);
            },
            Err(_) => {
                proof {
                    assert(false);
                }
            },
        }
        b = b + 1;
    }
    match transpose_vec_matrix(list_of_share_lists) {
        Ok(t) => {
            proof {
                let m = list_of_share_lists@;
                assert(shares_match(m[0]@, polys[0], shares_to_create));
                assert(m[0]@.len() == shares_to_create as int);
                assert forall|p: int, bb: int|
                    0 <= p < t@.len() && 0 <= bb < secret_len implies #[trigger] t@[p]@[bb] == (
                    ((p + 1) as u8),
                    poly_eval(polys[bb], (p + 1) as u8),
                ) by {
                    assert(shares_match(m[bb]@, polys[bb], shares_to_create));
                    assert(t@[p]@[bb] == m[bb]@[p]);
                }
                assert(rows_match(t@, polys, shares_to_create, secret_len as int));
                assert(polys_shape(secret@, shares_required, ghost_coefficients, polys));
            }
            Ok(t)
        },
        Err(e) => {
            proof {
                let m = list_of_share_lists@;
                let i = choose|i: int|
                    #![trigger m[i]]
                    1 <= i < m.len() && m[i - 1]@.len() != m[i]@.len() && e == (
                    Error::InvalidMatrix { index_of_invalid_length_row: i as usize }) && forall|
                    k: int,
                | 1 <= k < i ==> #[trigger] m[k - 1]@.len() == m[k]@.len();
                assert(shares_match(m[i - 1]@, polys[i - 1], shares_to_create));
                assert(shares_match(m[i]@, polys[i], shares_to_create));
            }
            vstd::pervasive::unreached()
        },
    }
}

/// The byte-position-b point of every participant row, in row order.
pub open spec fn point_column(rows: Seq<Vec<(u8, u8)>>, b: int) -> Seq<(u8, u8)> {
    Seq::new(rows.len(), |p: int| rows[p]@[b])
}

/// Reconstructs each byte of the secret from participant-major rows of
/// points: the rows are transposed back to byte-major and each byte is
/// interpolated at x = 0.
pub fn reconstruct_secrets(share_lists: Vec<Vec<(u8, u8)>>) -> (r: Result<Vec<u8>, Error>)
    requires
        share_lists@.len() >= 1,
        forall|p: int, q: int, b: int|
            0 <= p < share_lists@.len() && 0 <= q < share_lists@.len() && p != q && 0 <= b
                < share_lists@[p]@.len() && b < share_lists@[q]@.len()
                ==> share_lists@[p]@[b].0 != share_lists@[q]@[b].0,
    ensures
        r matches Err(e) ==> exists|i: int|
            #![trigger share_lists@[i]]
            1 <= i < share_lists@.len() && share_lists@[i - 1]@.len() != share_lists@[i]@.len() && e
                == (Error::InvalidMatrix { index_of_invalid_length_row: i as usize }) && forall|
                k: int,
            | 1 <= k < i ==> #[trigger] share_lists@[k - 1]@.len() == share_lists@[k]@.len(),
        r matches Ok(secrets) ==> (forall|i: int|
            0 <= i < share_lists@.len() ==> #[trigger] share_lists@[i]@.len() == share_lists@[0]@.len())
            && secrets@.len() == share_lists@[0]@.len() && forall|b: int|
            0 <= b < secrets@.len() ==> secrets@[b] == interp_at_zero(
                point_column(share_lists@, b),
            ),
{
    let ghost rows = share_lists@;
    let t = match transpose_vec_matrix(share_lists) {
        Ok(t) => t,
        Err(e) => {
            return Err(e);
        },
    };
    proof {
        assert forall|j: int| 0 <= j < t@.len() implies #[trigger] t@[j]@ == point_column(rows, j) by {
            assert(t@[j]@.len() == rows.len());
            assert(t@[j]@ =~= point_column(rows, j));
        }
    }
    let mut secrets: Vec<u8> = Vec::new();
    let mut b: usize = 0;
    while b < t.len()
        invariant
            b <= t@.len(),
            t@.len() == rows[0]@.len(),
            forall|i: int| 0 <= i < rows.len() ==> #[trigger] rows[i]@.len() == rows[0]@.len(),
            forall|j: int| 0 <= j < t@.len() ==> #[trigger] t@[j]@ == point_column(rows, j),
            forall|p: int, q: int, bb: int|
                0 <= p < rows.len() && 0 <= q < rows.len() && p != q && 0 <= bb < rows[p]@.len()
                    && bb < rows[q]@.len() ==> rows[p]@[bb].0 != rows[q]@[bb].0,
            secrets@.len() == b,
            forall|bb: int|
                0 <= bb < b ==> secrets@[bb] == interp_at_zero(point_column(rows, bb)),
        decreases t@.len() - b,
    {
        proof {
            let ghost tb = t@[b as int]@;
            assert forall|i: int, j: int| 0 <= i < j < tb.len() implies tb[i].0 != tb[j].0 by {
                assert(tb == point_column(rows, b as int));
                assert(tb[i] == rows[i]@[b as int]);
                assert(tb[j] == rows[j]@[b as int]);
                assert(rows[i]@.len() == rows[0]@.len());
                assert(rows[j]@.len() == rows[0]@.len());
            }
        }
        secrets.push(GaloisPolynomial::get_y_intercept_from_points(t[b].as_slice()));
        b = b + 1;
    }
    Ok(secrets)
}

/// Turns participant-major rows of compact shares back into point rows and
/// reconstructs the secret; the inverse of `from_secrets_no_points`.
pub fn reconstruct_secrets_no_points(share_lists: Vec<Vec<u8>>) -> (r: Result<Vec<u8>, Error>)
    requires
        share_lists@.len() >= 1,
        forall|p: int| 0 <= p < share_lists@.len() ==> share_lists@[p]@.len() >= 1,
        forall|p: int, q: int|
            0 <= p < share_lists@.len() && 0 <= q < share_lists@.len() && p != q
                ==> share_lists@[p]@[0] != share_lists@[q]@[0],
    ensures
        r matches Err(e) ==> exists|i: int|
            #![trigger share_lists@[i]]
            1 <= i < share_lists@.len() && share_lists@[i - 1]@.len() != share_lists@[i]@.len() && e
                == (Error::InvalidMatrix { index_of_invalid_length_row: i as usize }) && forall|
                k: int,
            | 1 <= k < i ==> #[trigger] share_lists@[k - 1]@.len() == share_lists@[k]@.len(),
        r matches Ok(secrets) ==> (forall|i: int|
            0 <= i < share_lists@.len() ==> #[trigger] share_lists@[i]@.len() == share_lists@[0]@.len())
            && secrets@.len() == share_lists@[0]@.len() - 1 && forall|b: int|
            0 <= b < secrets@.len() ==> secrets@[b] == interp_at_zero(
                Seq::new(
                    share_lists@.len(),
                    |p: int| (share_lists@[p]@[0], share_lists@[p]@[b + 1]),
                ),
            ),
{
    let ghost compact = share_lists@;
    let mut expanded: Vec<Vec<(u8, u8)>> = Vec::new();
    let mut p: usize = 0;
    while p < share_lists.len()
        invariant
            p <= compact.len(),
            share_lists@ == compact,
            forall|q: int| 0 <= q < compact.len() ==> #[trigger] compact[q]@.len() >= 1,
            expanded@.len() == p,
            forall|q: int| 0 <= q < p ==> expanded@[q]@ == expand_spec(compact[q]@),
        decreases compact.len() - p,
    {
        let row = &share_lists[p];
        let x = row[0];
        let mut pts: Vec<(u8, u8)> = Vec::new();
        let mut k: usize = 1;
        while k < row.len()
            invariant
                1 <= k <= row@.len(),
                row == compact[p as int],
                p < compact.len(),
                x == row@[0],
                pts@.len() == k - 1,
                forall|m: int| 0 <= m < k - 1 ==> pts@[m] == (row@[0], row@[m + 1]),
            decreases row@.len() - k,
        {
            pts.push((x, row[k]));
            k = k + 1;
        }
        proof {
            assert(pts@ =~= expand_spec(compact[p as int]@));
        }
        expanded.push(pts);
        p = p + 1;
    }
    let r = reconstruct_secrets(expanded);
    match r {
        Ok(secrets) => {
            proof {
                assert forall|i: int|
                    0 <= i < compact.len() implies #[trigger] compact[i]@.len() == compact[0]@.len()
                by {
                    assert(expanded@[i]@.len() == expanded@[0]@.len());
                    assert(expanded@[i]@ == expand_spec(compact[i]@));
                    assert(expanded@[0]@ == expand_spec(compact[0]@));
                }
                assert forall|b: int| 0 <= b < secrets@.len() implies secrets@[b] == interp_at_zero(
                    Seq::new(compact.len(), |pp: int| (compact[pp]@[0], compact[pp]@[b + 1])),
                ) by {
                    assert(point_column(expanded@, b) =~= Seq::new(
                        compact.len(),
                        |pp: int| (compact[pp]@[0], compact[pp]@[b + 1]),
                    ));
                }
            }
            Ok(secrets)
        },
        Err(e) => {
            proof {
                let i = choose|i: int|
                    #![trigger expanded@[i]]
                    1 <= i < expanded@.len() && expanded@[i - 1]@.len() != expanded@[i]@.len() && e
                        == (Error::InvalidMatrix { index_of_invalid_length_row: i as usize })
                        && forall|k: int|
                        1 <= k < i ==> #[trigger] expanded@[k - 1]@.len() == expanded@[k]@.len();
                assert(expanded@[i - 1]@ == expand_spec(compact[i - 1]@));
                assert(expanded@[i]@ == expand_spec(compact[i]@));
                assert(compact[i - 1]@.len() != compact[i]@.len());
                assert forall|k: int|
                    1 <= k < i implies #[trigger] compact[k - 1]@.len() == compact[k]@.len() by {
                    assert(expanded@[k - 1]@ == expand_spec(compact[k - 1]@));
                    assert(expanded@[k]@ == expand_spec(compact[k]@));
                    assert(expanded@[k - 1]@.len() == expanded@[k]@.len());
                }
            }
            Err(e)
        },
    }
}

/// Splits a secret into compact share rows: each row is the participant's
/// x value followed by one y byte per secret byte.
pub fn from_secrets_no_points(
    secret: &[u8],
    shares_required: u8,
    shares_to_create: u8,
    coefficients: Option<Vec<Vec<u8>>>,
    rand: &mut rand::rngs::StdRng,
) -> (r: Result<Vec<Vec<u8>>, Error>)
    ensures
        secret@.len() == 0 ==> r == Err::<Vec<Vec<u8>>, Error>(Error::EmptySecretArray),
        secret@.len() > 0 && shares_required > shares_to_create ==> r == Err::<Vec<Vec<u8>>, Error>(
            Error::UnreconstructableSecret(shares_to_create, shares_required),
        ),
        secret@.len() > 0 && shares_required <= shares_to_create && shares_to_create < 2 ==> r
            == Err::<Vec<Vec<u8>>, Error>(Error::InvalidNumberOfShares(shares_to_create)),
        secret@.len() > 0 && shares_required <= shares_to_create && shares_to_create >= 2
            && !coeff_cols_ok(coefficients, shares_required) ==> r == Err::<
            Vec<Vec<u8>>,
            Error,
        >(
            Error::InvalidNumberOfCoefficients(
                max_fixed_coefficients(shares_required),
                (cols_of(coefficients).len() % 256) as u8,
            ),
        ),
        secret@.len() > 0 && shares_required <= shares_to_create && shares_to_create >= 2
            && coeff_cols_ok(coefficients, shares_required) ==> (r matches Ok(rows) && exists|
            polys: Seq<Seq<u8>>,
        |
            #![auto]
            polys_shape(secret@, shares_required, coefficients, polys) && compact_rows_match(
                rows@,
                polys,
                shares_to_create,
                secret@.len() as int,
            )),
{
    let ghost ghost_coefficients = coefficients;
    let full = match from_secrets(secret, shares_required, shares_to_create, coefficients, rand) {
        Ok(full) => full,
        Err(e) => {
            return Err(e);
        },
    };
    let ghost polys = choose|polys: Seq<Seq<u8>>|
        #![auto]
        polys_shape(secret@, shares_required, ghost_coefficients, polys) && rows_match(
            full@,
            polys,
            shares_to_create,
            secret@.len() as int,
        );
    let mut out: Vec<Vec<u8>> = Vec::new();
    let mut p: usize = 0;
    while p < full.len()
        invariant
            p <= full@.len(),
            secret@.len() >= 1,
            rows_match(full@, polys, shares_to_create, secret@.len() as int),
            out@.len() == p,
            forall|q: int|
                0 <= q < p ==> out@[q]@.len() == secret@.len() + 1 && out@[q]@[0] == full@[q]@[0].0
                    && forall|b: int|
                    0 <= b < secret@.len() ==> out@[q]@[b + 1] == full@[q]@[b].1,
        decreases full@.len() - p,
    {
        let row = &full[p];
        let mut new_share: Vec<u8> = Vec::new();
        new_share.push(row[0].0);
        let mut b: usize = 0;
        while b < row.len()
            invariant
                b <= row@.len(),
                row == full@[p as int],
                p < full@.len(),
                rows_match(full@, polys, shares_to_create, secret@.len() as int),
                row@.len() == secret@.len(),
                new_share@.len() == b + 1,
                new_share@[0] == row@[0].0,
                forall|m: int| 0 <= m < b ==> new_share@[m + 1] == row@[m].1,
            decreases row@.len() - b,
        {
            new_share.push(row[b].1);
            b = b + 1;
        }
        out.push(new_share);
        p = p + 1;
    }
    proof {
        assert forall|q: int| 0 <= q < out@.len() implies #[trigger] out@[q]@[0] == (q + 1) as u8 by {
            assert(out@[q]@[0] == full@[q]@[0].0);
            assert(full@[q]@[0] == (((q + 1) as u8), poly_eval(polys[0], (q + 1) as u8)));
        }
        assert forall|q: int, b: int|
            0 <= q < out@.len() && 0 <= b < secret@.len() implies #[trigger] out@[q]@[b + 1]
            == poly_eval(polys[b], (q + 1) as u8) by {
            assert(out@[q]@[b + 1] == full@[q]@[b].1);
            assert(full@[q]@[b] == (((q + 1) as u8), poly_eval(polys[b], (q + 1) as u8)));
        }
        assert(compact_rows_match(out@, polys, shares_to_create, secret@.len() as int));
    }
    Ok(out)
}

/// Compact rows: row p is the x value p + 1 followed by the y values of
/// every secret byte's polynomial at that x.
pub open spec fn compact_rows_match(
    rows: Seq<Vec<u8>>,
    polys: Seq<Seq<u8>>,
    shares_to_create: u8,
    nbytes: int,
) -> bool {
    &&& rows.len() == shares_to_create as int
    &&& forall|p: int| 0 <= p < rows.len() ==> rows[p]@.len() == nbytes + 1
    &&& forall|p: int| 0 <= p < rows.len() ==> rows[p]@[0] == (p + 1) as u8
    &&& forall|p: int, b: int|
        0 <= p < rows.len() && 0 <= b < nbytes ==> rows[p]@[b + 1] == poly_eval(
            polys[b],
            (p + 1) as u8,
        )
}

/// A point row compressed to its shared x value and the y values in order.
pub open spec fn reduce_spec(share: Seq<(u8, u8)>) -> (u8, Seq<u8>) {
    (share[0].0, share.map_values(|pt: (u8, u8)| pt.1))
}

/// A compact row turned back into points: the leading x value paired with
/// each following y value.
pub open spec fn expand_spec(share: Seq<u8>) -> Seq<(u8, u8)> {
    Seq::new((share.len() - 1) as nat, |i: int| (share[0], share[i + 1]))
}

/// Pulls the shared x value out of a point row, halving its size.
pub fn reduce_share(share: Vec<(u8, u8)>) -> (r: (u8, Vec<u8>))
    requires
        share@.len() >= 1,
    ensures
        r.0 == reduce_spec(share@).0,
        r.1@ == reduce_spec(share@).1,
{
    let x = share[0].0;
    let mut ys: Vec<u8> = Vec::new();
    let mut i: usize = 0;
    while i < share.len()
        invariant
            i <= share@.len(),
            ys@.len() == i,
            forall|m: int| 0 <= m < i ==> ys@[m] == share@[m].1,
        decreases share@.len() - i,
    {
        ys.push(share[i].1);
        i = i + 1;
    }
    proof {
        assert(ys@ =~= share@.map_values(|pt: (u8, u8)| pt.1));
    }
    (x, ys)
}

/// Reinstates the leading x value of a compact row next to each y value;
/// the inverse of `reduce_share`.
pub fn expand_share(share: Vec<u8>) -> (r: Vec<(u8, u8)>)
    requires
        share@.len() >= 1,
    ensures
        r@ == expand_spec(share@),
{
    let x = share[0];
    let mut pts: Vec<(u8, u8)> = Vec::new();
    let mut i: usize = 1;
    while i < share.len()
        invariant
            1 <= i <= share@.len(),
            x == share@[0],
            pts@.len() == i - 1,
            forall|m: int| 0 <= m < i - 1 ==> pts@[m] == (share@[0], share@[m + 1]),
        decreases share@.len() - i,
    {
        pts.push((x, share[i]));
        i = i + 1;
    }
    proof {
        assert(pts@ =~= expand_spec(share@));
    }
    pts
}

/// Compacting a row and expanding it again gives the row back: the two
/// encodings are strictly paired and lose nothing, provided every point of
/// the row carries the same x value, as every generated row does.
pub proof fn lemma_compact_round_trip(share: Seq<(u8, u8)>)
    requires
        share.len() >= 1,
        forall|i: int| 0 <= i < share.len() ==> (#[trigger] share[i]).0 == share[0].0,
    ensures
        expand_spec(seq![reduce_spec(share).0] + reduce_spec(share).1) =~= share,
{
    let compacted = seq![reduce_spec(share).0] + reduce_spec(share).1;
    assert(compacted.len() == share.len() + 1);
    assert forall|i: int| 0 <= i < share.len() implies expand_spec(compacted)[i] == share[i] by {
        assert(compacted[i + 1] == share[i].1);
        assert(compacted[0] == share[0].0);
    }
}

/// Transposes a matrix given as rows of equal length; rows = columns after
/// the call. A row whose length differs from its predecessors' fails with
/// `InvalidMatrix` naming the first such row index.
pub fn transpose_vec_matrix<T: Copy>(matrix: Vec<Vec<T>>) -> (r: Result<Vec<Vec<T>>, Error>)
    requires
        matrix@.len() >= 1,
    ensures
        r matches Err(e) ==> exists|i: int|
            #![trigger matrix@[i]]
            1 <= i < matrix@.len() && matrix@[i - 1]@.len() != matrix@[i]@.len() && e == (
            Error::InvalidMatrix { index_of_invalid_length_row: i as usize }) && forall|k: int|
                1 <= k < i ==> #[trigger] matrix@[k - 1]@.len() == matrix@[k]@.len(),
        r matches Ok(t) ==> (forall|i: int|
            0 <= i < matrix@.len() ==> #[trigger] matrix@[i]@.len() == matrix@[0]@.len()) && t@.len()
            == matrix@[0]@.len() && (forall|j: int|
            0 <= j < t@.len() ==> t@[j]@.len() == matrix@.len()) && forall|i: int, j: int|
            0 <= i < matrix@.len() && 0 <= j < t@.len() ==> t@[j]@[i] == matrix@[i]@[j],
{
    let mut i: usize = 1;
    while i < matrix.len()
        invariant
            1 <= i <= matrix@.len(),
            forall|k: int| 0 <= k < i ==> #[trigger] matrix@[k]@.len() == matrix@[0]@.len(),
        decreases matrix@.len() - i,
    {
        if matrix[i - 1].len() != matrix[i].len() {
            return Err(Error::InvalidMatrix { index_of_invalid_length_row: i });
        }
        i = i + 1;
    }
    let row_len = matrix[0].len();
    let mut transpose: Vec<Vec<T>> = Vec::new();
    let mut j: usize = 0;
    while j < row_len
        invariant
            j <= row_len,
            row_len == matrix@[0]@.len(),
            matrix@.len() >= 1,
            forall|k: int| 0 <= k < matrix@.len() ==> #[trigger] matrix@[k]@.len() == matrix@[0]@.len(),
            transpose@.len() == j,
            forall|q: int|
                0 <= q < j ==> transpose@[q]@.len() == matrix@.len() && forall|p: int|
                    0 <= p < matrix@.len() ==> transpose@[q]@[p] == matrix@[p]@[q],
        decreases row_len - j,
    {
        let mut column: Vec<T> = Vec::new();
        let mut p: usize = 0;
        while p < matrix.len()
            invariant
                p <= matrix@.len(),
                j < row_len,
                row_len == matrix@[0]@.len(),
                forall|k: int| 0 <= k < matrix@.len() ==> #[trigger] matrix@[k]@.len() == matrix@[0]@.len(),
                column@.len() == p,
                forall|q: int| 0 <= q < p ==> column@[q] == matrix@[q]@[j as int],
            decreases matrix@.len() - p,
        {
            column.push(matrix[p][j]);
            p = p + 1;
        }
        transpose.push(column);
        j = j + 1;
    }
    Ok(transpose)
}

} // verus!
