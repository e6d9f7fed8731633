//! Derived shares: one share regenerated on demand from answer strings.
//!
//! The answers are sorted (so their order does not matter), their
//! case-folded forms are concatenated and hashed, and the digest plays the
//! role of the polynomial's value at the reserved participant index 3. In a
//! two-of-N scheme the polynomial is the line f(x) = a0 + a1*x, so fixing
//! f(3) determines a1 = (f(3) - a0) / 3; that coefficient is injected at
//! polynomial position 1, and the share at x = 3 never needs to be stored.

use vstd::prelude::*;

use vstd::relations::{sorted_by, total_ordering};
use vstd::seq_lib::lemma_sorted_unique;
use vstd::string::StrSliceExecFns;
use vstd::utf8::encode_utf8;

use crate::basic_sharing::Error;
use crate::basic_sharing::from_secrets_no_points;
use crate::basic_sharing::max_fixed_coefficients;
use crate::basic_sharing::share_poly_shape;
use crate::geometry::{gf_add, gf_div, gf_divide_nz, gf_mul, lemma_mul_three_cancel, poly_eval};

verus! {

/// What `blake3::hash` returns for the given input bytes; a function of the
/// input alone.
pub uninterp spec fn blake3_of(input: Seq<u8>) -> Seq<u8>;

/// Relies on blake3::hash: the digest depends on the input bytes alone, and
/// the crate's default output length is 32 bytes.
#[verifier::external_body]
fn blake3_digest(input: &[u8]) -> (r: Vec<u8>)
    ensures
        r@ == blake3_of(input@),
        r@.len() == 32,
{
    blake3::hash(input).as_bytes().to_vec()
}

/// What `str::to_lowercase` returns for the given characters; a function of
/// the characters alone.
pub uninterp spec fn lower_of(s: Seq<char>) -> Seq<char>;

/// Relies on str::to_lowercase: the result depends on the characters alone.
#[verifier::external_body]
fn to_lower(s: &str) -> (r: String)
    ensures
        r@ == lower_of(s@),
{
    s.to_lowercase()
}

/// The lowercase hexadecimal digit of a value below sixteen.
pub open spec fn hex_digit(v: u8) -> char {
    if v == 0 {
        '0'
    } else if v == 1 {
        '1'
    } else if v == 2 {
        '2'
    } else if v == 3 {
        '3'
    } else if v == 4 {
        '4'
    } else if v == 5 {
        '5'
    } else if v == 6 {
        '6'
    } else if v == 7 {
        '7'
    } else if v == 8 {
        '8'
    } else if v == 9 {
        '9'
    } else if v == 10 {
        'a'
    } else if v == 11 {
        'b'
    } else if v == 12 {
        'c'
    } else if v == 13 {
        'd'
    } else if v == 14 {
        'e'
    } else {
        'f'
    }
}

/// Lowercase hexadecimal text of a byte sequence: two digits per byte, high
/// nibble first.
pub open spec fn hex_of(bytes: Seq<u8>) -> Seq<char>
    decreases bytes.len(),
{
    if bytes.len() == 0 {
        Seq::<char>::empty()
    } else {
        seq![hex_digit(bytes[0] / 16), hex_digit(bytes[0] % 16)] + hex_of(bytes.drop_first())
    }
}

/// Relies on hex::encode: lowercase hexadecimal, two digits per byte, high
/// nibble first.
#[verifier::external_body]
fn to_hex(bytes: &[u8]) -> (r: String)
    ensures
        r@ == hex_of(bytes@),
{
    hex::encode(bytes)
}

/// Byte-wise lexicographic order on byte sequences, a prefix ordered before
/// its extensions. This is the order in which `str` sorts.
pub open spec fn lex_leq(a: Seq<u8>, b: Seq<u8>) -> bool
    decreases a.len(),
{
    if a.len() == 0 {
        true
    } else if b.len() == 0 {
        false
    } else if a[0] < b[0] {
        true
    } else if a[0] > b[0] {
        false
    } else {
        lex_leq(a.drop_first(), b.drop_first())
    }
}

/// Lexicographic order on pairs of byte sequences: by first component, ties
/// broken by the second.
pub open spec fn pair_leq(x: (Seq<u8>, Seq<u8>), y: (Seq<u8>, Seq<u8>)) -> bool {
    if x.0 == y.0 {
        lex_leq(x.1, y.1)
    } else {
        lex_leq(x.0, y.0)
    }
}

/// `pair_leq` as a function value, for sorting.
pub open spec fn pair_leq_fn() -> spec_fn((Seq<u8>, Seq<u8>), (Seq<u8>, Seq<u8>)) -> bool {
    |x: (Seq<u8>, Seq<u8>), y: (Seq<u8>, Seq<u8>)| pair_leq(x, y)
}

pub proof fn lemma_lex_refl(a: Seq<u8>)
    ensures
        lex_leq(a, a),
    decreases a.len(),
{
    if a.len() > 0 {
        lemma_lex_refl(a.drop_first());
    }
}

pub proof fn lemma_lex_connected(a: Seq<u8>, b: Seq<u8>)
    ensures
        lex_leq(a, b) || lex_leq(b, a),
    decreases a.len(),
{
    if a.len() > 0 && b.len() > 0 && a[0] == b[0] {
        lemma_lex_connected(a.drop_first(), b.drop_first());
    }
}

pub proof fn lemma_lex_antisym(a: Seq<u8>, b: Seq<u8>)
    requires
        lex_leq(a, b),
        lex_leq(b, a),
    ensures
        a == b,
    decreases a.len(),
{
    if a.len() == 0 {
        assert(b.len() == 0);
        assert(a =~= b);
    } else {
        assert(b.len() > 0);
        assert(a[0] == b[0]);
        lemma_lex_antisym(a.drop_first(), b.drop_first());
        assert(a.len() == b.len());
        assert forall|i: int| 0 <= i < a.len() implies a[i] == b[i] by {
            if i > 0 {
                assert(a.drop_first()[i - 1] == b.drop_first()[i - 1]);
            }
        }
        assert(a =~= b);
    }
}

pub proof fn lemma_lex_trans(a: Seq<u8>, b: Seq<u8>, c: Seq<u8>)
    requires
        lex_leq(a, b),
        lex_leq(b, c),
    ensures
        lex_leq(a, c),
    decreases a.len(),
{
    if a.len() == 0 {
    } else {
        assert(b.len() > 0);
        assert(c.len() > 0);
        if a[0] == b[0] && b[0] == c[0] {
            lemma_lex_trans(a.drop_first(), b.drop_first(), c.drop_first());
        }
    }
}

/// The pair order is a total order: reflexive, antisymmetric, transitive
/// and strongly connected.
pub proof fn lemma_pair_leq_total_ordering()
    ensures
        total_ordering(pair_leq_fn()),
{
    let leq = pair_leq_fn();
    assert forall|x: (Seq<u8>, Seq<u8>)| #[trigger] leq(x, x) by {
        lemma_lex_refl(x.1);
    }
    assert forall|x: (Seq<u8>, Seq<u8>), y: (Seq<u8>, Seq<u8>)|
        #[trigger] leq(x, y) && #[trigger] leq(y, x) implies x == y by {
        if x.0 == y.0 {
            lemma_lex_antisym(x.1, y.1);
        } else {
            lemma_lex_antisym(x.0, y.0);
        }
    }
    assert forall|x: (Seq<u8>, Seq<u8>), y: (Seq<u8>, Seq<u8>), z: (Seq<u8>, Seq<u8>)|
        #[trigger] leq(x, y) && #[trigger] leq(y, z) implies leq(x, z) by {
        if x.0 == y.0 && y.0 == z.0 {
            lemma_lex_trans(x.1, y.1, z.1);
        } else if x.0 == y.0 {
            assert(lex_leq(y.0, z.0));
        } else if y.0 == z.0 {
            assert(lex_leq(x.0, y.0));
        } else {
            lemma_lex_trans(x.0, y.0, z.0);
            if x.0 == z.0 {
                lemma_lex_antisym(x.0, y.0);
            }
        }
    }
    assert forall|x: (Seq<u8>, Seq<u8>), y: (Seq<u8>, Seq<u8>)|
        #[trigger] leq(x, y) || #[trigger] leq(y, x) by {
        if x.0 == y.0 {
            lemma_lex_connected(x.1, y.1);
        } else {
            lemma_lex_connected(x.0, y.0);
        }
    }
}

/// Byte-wise lexicographic comparison of two byte vectors.
fn lex_le(a: &Vec<u8>, b: &Vec<u8>) -> (r: bool)
    ensures
        r == lex_leq(a@, b@),
{
    let mut i: usize = 0;
    proof {
        assert(a@.skip(0) =~= a@);
        assert(b@.skip(0) =~= b@);
    }
    while i < a.len() && i < b.len()
        invariant
            i <= a@.len(),
            i <= b@.len(),
            lex_leq(a@, b@) == lex_leq(a@.skip(i as int), b@.skip(i as int)),
        decreases a@.len() - i,
    {
        proof {
            assert(a@.skip(i as int)[0] == a@[i as int]);
            assert(b@.skip(i as int)[0] == b@[i as int]);
        }
        if a[i] < b[i] {
            return true;
        }
        if a[i] > b[i] {
            return false;
        }
        proof {
            assert(a@.skip(i as int).drop_first() =~= a@.skip(i as int + 1));
            assert(b@.skip(i as int).drop_first() =~= b@.skip(i as int + 1));
        }
        i = i + 1;
    }
    proof {
        if i == a.len() {
            assert(a@.skip(i as int).len() == 0);
        } else {
            assert(b@.skip(i as int).len() == 0);
            assert(a@.skip(i as int).len() > 0);
        }
    }
    a.len() <= b.len()
}

/// The spec-level key of a stored pair: the views of its two byte vectors.
pub open spec fn pair_key(p: (Vec<u8>, Vec<u8>)) -> (Seq<u8>, Seq<u8>) {
    (p.0@, p.1@)
}

/// The keys of a whole pair sequence.
pub open spec fn keys_view(items: Seq<(Vec<u8>, Vec<u8>)>) -> Seq<(Seq<u8>, Seq<u8>)> {
    items.map_values(|p: (Vec<u8>, Vec<u8>)| pair_key(p))
}

/// Whether one stored pair sorts at or before another.
fn pair_le(a: &(Vec<u8>, Vec<u8>), b: &(Vec<u8>, Vec<u8>)) -> (r: bool)
    ensures
        r == pair_leq(pair_key(*a), pair_key(*b)),
{
    let first_le = lex_le(&a.0, &b.0);
    let first_ge = lex_le(&b.0, &a.0);
    if first_le && first_ge {
        proof {
            lemma_lex_antisym(a.0@, b.0@);
        }
        lex_le(&a.1, &b.1)
    } else {
        proof {
            if a.0@ == b.0@ {
                lemma_lex_refl(a.0@);
            }
        }
        first_le
    }
}

/// Insertion sort of the stored pairs under `pair_leq`: the result is
/// sorted and holds exactly the input pairs.
fn sort_pairs(items: Vec<(Vec<u8>, Vec<u8>)>) -> (r: Vec<(Vec<u8>, Vec<u8>)>)
    ensures
        sorted_by(keys_view(r@), pair_leq_fn()),
        keys_view(r@).to_multiset() == keys_view(items@).to_multiset(),
{
    let ghost total = keys_view(items@).to_multiset();
    let mut rest = items;
    let mut out: Vec<(Vec<u8>, Vec<u8>)> = Vec::new();
    proof {
        broadcast use vstd::seq_lib::group_to_multiset_ensures;
        broadcast use vstd::multiset::group_multiset_axioms;

        assert(keys_view(out@) =~= Seq::<(Seq<u8>, Seq<u8>)>::empty());
        assert(keys_view(out@).to_multiset().add(keys_view(rest@).to_multiset()) =~= total);
    }
    while rest.len() > 0
        invariant
            sorted_by(keys_view(out@), pair_leq_fn()),
            keys_view(out@).to_multiset().add(keys_view(rest@).to_multiset()) == total,
        decreases rest@.len(),
    {
        let ghost rest_before = rest@;
        let item = rest.pop().unwrap();
        let ghost kitem = pair_key(item);
        proof {
            broadcast use vstd::seq_lib::group_to_multiset_ensures;
            broadcast use vstd::multiset::group_multiset_axioms;

            assert(keys_view(rest@) =~= keys_view(rest_before).remove(
                keys_view(rest_before).len() - 1,
            ));
            assert(keys_view(rest_before)[keys_view(rest_before).len() - 1] == kitem);
        }
        let mut j: usize = 0;
        while j < out.len() && pair_le(&out[j], &item)
            invariant
                j <= out@.len(),
                pair_key(item) == kitem,
                forall|k: int| 0 <= k < j ==> pair_leq(#[trigger] keys_view(out@)[k], kitem),
            decreases out@.len() - j,
        {
            j = j + 1;
        }
        let ghost out_before = out@;
        proof {
            lemma_pair_leq_total_ordering();
            if j < out@.len() {
                assert(!pair_leq(keys_view(out@)[j as int], kitem));
                assert(pair_leq_fn()(keys_view(out@)[j as int], kitem) || pair_leq_fn()(
                    kitem,
                    keys_view(out@)[j as int],
                ));
            }
        }
        out.insert(j, item);
        proof {
            broadcast use vstd::seq_lib::group_to_multiset_ensures;
            broadcast use vstd::multiset::group_multiset_axioms;

            let kold = keys_view(out_before);
            let knew = keys_view(out@);
            assert(knew =~= kold.insert(j as int, kitem));
            assert(kold.insert(j as int, kitem).to_multiset() == kold.to_multiset().insert(kitem));
            assert forall|p: int, q: int| 0 <= p < q < knew.len() implies pair_leq_fn()(
                knew[p],
                knew[q],
            ) by {
                let leq = pair_leq_fn();
                if q < j {
                    assert(knew[p] == kold[p] && knew[q] == kold[q]);
                } else if p > j {
                    assert(knew[p] == kold[p - 1] && knew[q] == kold[q - 1]);
                } else if p < j && q == j {
                    assert(knew[p] == kold[p]);
                    assert(leq(kold[p], kitem));
                } else if p == j && q > j {
                    assert(knew[q] == kold[q - 1]);
                    if j < kold.len() {
                        assert(leq(kitem, kold[j as int]));
                        if q - 1 > j {
                            assert(leq(kold[j as int], kold[q - 1]));
                        }
                    }
                } else if p < j && q > j {
                    assert(knew[p] == kold[p] && knew[q] == kold[q - 1]);
                    assert(leq(kold[p], kitem));
                    if j < kold.len() {
                        assert(leq(kitem, kold[j as int]));
                        if q - 1 > j {
                            assert(leq(kold[j as int], kold[q - 1]));
                        } else {
                            assert(leq(kitem, kold[q - 1]));
                        }
                    }
                }
            }
            assert forall|x: (Seq<u8>, Seq<u8>)|
                knew.to_multiset().add(keys_view(rest@).to_multiset()).count(x) == total.count(
                    x,
                ) by {
                assert(kold.to_multiset().add(keys_view(rest_before).to_multiset()).count(x)
                    == total.count(x));
                assert(keys_view(rest_before).to_multiset() =~= keys_view(rest@).to_multiset()
                    .insert(kitem));
            }
            assert(knew.to_multiset().add(keys_view(rest@).to_multiset()) =~= total);
        }
    }
    proof {
        broadcast use vstd::seq_lib::group_to_multiset_ensures;
        broadcast use vstd::multiset::group_multiset_axioms;

        assert(keys_view(rest@) =~= Seq::<(Seq<u8>, Seq<u8>)>::empty());
        assert(keys_view(out@).to_multiset() =~= total);
    }
    out
}

/// The character views of the answer strings.
pub open spec fn seed_views(seeds: Seq<&str>) -> Seq<Seq<char>> {
    seeds.map_values(|s: &str| s@)
}

/// The sort key of one answer: its UTF-8 bytes (the order `str` sorts in)
/// and the UTF-8 bytes of its case-folded form (what is hashed).
pub open spec fn seed_key(v: Seq<char>) -> (Seq<u8>, Seq<u8>) {
    (encode_utf8(v), encode_utf8(lower_of(v)))
}

/// The sort keys of all answers.
pub open spec fn derive_keys(views: Seq<Seq<char>>) -> Seq<(Seq<u8>, Seq<u8>)> {
    views.map_values(|v: Seq<char>| seed_key(v))
}

/// The bytes that are hashed: the case-folded forms, concatenated in the
/// order in which the answers themselves sort.
pub open spec fn derive_input(views: Seq<Seq<char>>) -> Seq<u8> {
    derive_keys(views).sort_by(pair_leq_fn()).map_values(|k: (Seq<u8>, Seq<u8>)| k.1).flatten()
}

/// The derived share value of a list of answers: the hash of their sorted,
/// case-folded concatenation.
pub open spec fn derive_spec(views: Seq<Seq<char>>) -> Seq<u8> {
    blake3_of(derive_input(views))
}

/// The derived share value: the answers are sorted, their case-folded forms
/// concatenated in that order, and the result hashed to 32 bytes.
pub fn derived_share(seeds: Vec<&str>) -> (r: Vec<u8>)
    ensures
        r@ == derive_spec(seed_views(seeds@)),
        r@.len() == 32,
{
    let ghost views = seed_views(seeds@);
    let mut items: Vec<(Vec<u8>, Vec<u8>)> = Vec::new();
    let mut i: usize = 0;
    while i < seeds.len()
        invariant
            i <= seeds@.len(),
            views == seed_views(seeds@),
            keys_view(items@) == derive_keys(views).take(i as int),
        decreases seeds@.len() - i,
    {
        let s = seeds[i];
        let orig = s.as_bytes_vec();
        let low = to_lower(s);
        let lowb = low.as_str().as_bytes_vec();
        proof {
            assert(orig@ == encode_utf8(s@));
            assert(lowb@ == encode_utf8(lower_of(s@)));
            assert(views[i as int] == s@);
        }
        let ghost gorig = orig@;
        let ghost glowb = lowb@;
        let ghost items_before = items@;
        items.push((orig, lowb));
        proof {
            let ks = keys_view(items@);
            let tk = derive_keys(views).take(i as int + 1);
            assert(keys_view(items_before).len() == items_before.len());
            assert(derive_keys(views).take(i as int).len() == i);
            assert(items_before.len() == i);
            assert(items@ == items_before.push(items@[i as int]));
            assert(pair_key(items@[i as int]) == (gorig, glowb));
            assert(derive_keys(views)[i as int] == seed_key(views[i as int]));
            assert(seed_key(views[i as int]) == (gorig, glowb));
            assert forall|m: int| 0 <= m < i + 1 implies ks[m] == tk[m] by {
                if m < i {
                    assert(keys_view(items_before)[m] == derive_keys(views).take(i as int)[m]);
                }
            }
            assert(ks =~= tk);
        }
        i = i + 1;
    }
    proof {
        assert(derive_keys(views).take(seeds@.len() as int) =~= derive_keys(views));
    }
    let sorted = sort_pairs(items);
    proof {
        let keys = derive_keys(views);
        lemma_pair_leq_total_ordering();
        keys.lemma_sort_by_ensures(pair_leq_fn());
        lemma_sorted_unique(keys_view(sorted@), keys.sort_by(pair_leq_fn()), pair_leq_fn());
        assert(keys_view(sorted@) == keys.sort_by(pair_leq_fn()));
    }
    let ghost lowers = keys_view(sorted@).map_values(|k: (Seq<u8>, Seq<u8>)| k.1);
    let mut joined: Vec<u8> = Vec::new();
    let mut p: usize = 0;
    proof {
        assert(lowers.take(0).flatten() =~= Seq::<u8>::empty());
    }
    while p < sorted.len()
        invariant
            p <= sorted@.len(),
            lowers == keys_view(sorted@).map_values(|k: (Seq<u8>, Seq<u8>)| k.1),
            joined@ == lowers.take(p as int).flatten(),
        decreases sorted@.len() - p,
    {
        let ghost joined_before = joined@;
        let row = &sorted[p];
        let mut k: usize = 0;
        while k < row.1.len()
            invariant
                k <= row.1@.len(),
                row == sorted@[p as int],
                p < sorted@.len(),
                joined@ == joined_before + row.1@.take(k as int),
            decreases row.1@.len() - k,
        {
            joined.push(row.1[k]);
            proof {
                assert(joined@ =~= joined_before + row.1@.take(k as int + 1));
            }
            k = k + 1;
        }
        proof {
            assert(row.1@.take(row.1@.len() as int) =~= row.1@);
            assert(lowers.take(p as int).push(lowers[p as int]) =~= lowers.take(p as int + 1));
            lowers.take(p as int).lemma_flatten_push(lowers[p as int]);
            assert(joined@ =~= lowers.take(p as int + 1).flatten());
        }
        p = p + 1;
    }
    proof {
        assert(lowers.take(sorted@.len() as int) =~= lowers);
        assert(joined@ == derive_input(views));
    }
    blake3_digest(joined.as_slice())
}

/// The derived share value as lowercase hexadecimal text.
pub fn derived_share_hex(seeds: Vec<&str>) -> (r: String)
    ensures
        r@ == hex_of(derive_spec(seed_views(seeds@))),
{
    let d = derived_share(seeds);
    to_hex(d.as_slice())
}

/// Mapping a function over two sequences with the same elements gives
/// sequences with the same elements.
pub proof fn lemma_map_values_multiset<A, B>(s1: Seq<A>, s2: Seq<A>, f: spec_fn(A) -> B)
    requires
        s1.to_multiset() == s2.to_multiset(),
    ensures
        s1.map_values(f).to_multiset() == s2.map_values(f).to_multiset(),
    decreases s1.len(),
{
    broadcast use vstd::seq_lib::group_to_multiset_ensures;
    broadcast use vstd::multiset::group_multiset_axioms;

    if s1.len() == 0 {
        assert(s1.to_multiset().len() == s1.len());
        assert(s2.to_multiset().len() == s2.len());
        assert(s2.len() == 0);
        assert(s1.map_values(f) =~= s2.map_values(f));
    } else {
        let a = s1[0];
        assert(s1.contains(a));
        assert(s1.to_multiset().contains(a));
        assert(s2.to_multiset().contains(a));
        assert(s2.contains(a));
        let i = choose|i: int| 0 <= i < s2.len() && s2[i] == a;
        let s1d = s1.remove(0);
        let s2d = s2.remove(i);
        assert(s1d.to_multiset() == s1.to_multiset().remove(a));
        assert(s2d.to_multiset() == s2.to_multiset().remove(a));
        lemma_map_values_multiset(s1d, s2d, f);
        let m1 = s1.map_values(f);
        let m2 = s2.map_values(f);
        assert(m1.remove(0) =~= s1d.map_values(f));
        assert(m2.remove(i) =~= s2d.map_values(f));
        assert(m1.remove(0).to_multiset() == m1.to_multiset().remove(f(a)));
        assert(m2.remove(i).to_multiset() == m2.to_multiset().remove(f(a)));
        assert(m1.contains(f(a)));
        assert(m1.to_multiset().contains(f(a)));
        assert(m2.contains(f(a)));
        assert(m2.to_multiset().contains(f(a)));
        assert forall|x: B| m1.to_multiset().count(x) == m2.to_multiset().count(x) by {
            if x == f(a) {
                assert(m1.to_multiset().remove(f(a)).count(x) + 1 == m1.to_multiset().count(x));
                assert(m2.to_multiset().remove(f(a)).count(x) + 1 == m2.to_multiset().count(x));
            } else {
                assert(m1.to_multiset().remove(f(a)).count(x) == m1.to_multiset().count(x));
                assert(m2.to_multiset().remove(f(a)).count(x) == m2.to_multiset().count(x));
            }
        }
        assert(m1.to_multiset() =~= m2.to_multiset());
    }
}

/// The derived share value does not depend on the order of the answers:
/// two answer lists holding the same strings, as a multiset, derive the
/// same value.
pub proof fn lemma_derive_order_insensitive(v1: Seq<Seq<char>>, v2: Seq<Seq<char>>)
    requires
        v1.to_multiset() == v2.to_multiset(),
    ensures
        derive_spec(v1) == derive_spec(v2),
{
    lemma_map_values_multiset(v1, v2, |v: Seq<char>| seed_key(v));
    let k1 = derive_keys(v1);
    let k2 = derive_keys(v2);
    lemma_pair_leq_total_ordering();
    k1.lemma_sort_by_ensures(pair_leq_fn());
    k2.lemma_sort_by_ensures(pair_leq_fn());
    lemma_sorted_unique(k1.sort_by(pair_leq_fn()), k2.sort_by(pair_leq_fn()), pair_leq_fn());
    assert(k1.sort_by(pair_leq_fn()) == k2.sort_by(pair_leq_fn()));
}

/// Per secret byte, the coefficient a1 that solves f(3) = a0 + a1*3 for the
/// degree-one polynomial with constant term a0 (the secret byte) and value
/// f(3) (the derived share byte): a1 = (f(3) - a0) / 3.
fn calculate_derived_coeff(secret: &[u8], derived_share: &[u8]) -> (r: Vec<u8>)
    requires
        secret@.len() <= derived_share@.len(),
    ensures
        r@.len() == secret@.len(),
        forall|i: int|
            0 <= i < secret@.len() ==> r@[i] == gf_div(
                gf_add(derived_share@[i], secret@[i]),
                3,
            ),
{
    let mut coeff: Vec<u8> = Vec::new();
    let mut i: usize = 0;
    while i < secret.len()
        invariant
            i <= secret@.len(),
            secret@.len() <= derived_share@.len(),
            coeff@.len() == i,
            forall|m: int|
                0 <= m < i ==> coeff@[m] == gf_div(gf_add(derived_share@[m], secret@[m]), 3),
        decreases secret@.len() - i,
    {
        let f3 = derived_share[i];
        let a0 = secret[i];
        let a1 = gf_divide_nz(f3 ^ a0, 3);
        coeff.push(a1);
        i = i + 1;
    }
    coeff
}

/// One polynomial per secret byte, each with the byte as constant term and
/// the solved coefficient (derived byte - secret byte) / 3 at position 1.
pub open spec fn derived_polys_shape(
    secret: Seq<u8>,
    shares_required: u8,
    derived: Seq<u8>,
    polys: Seq<Seq<u8>>,
) -> bool {
    &&& polys.len() == secret.len()
    &&& forall|b: int|
        0 <= b < secret.len() ==> share_poly_shape(
            secret[b],
            shares_required,
            seq![gf_div(gf_add(derived[b], secret[b]), 3)],
            polys[b],
        )
}

/// Compact share row p before hex encoding: the x value p + 1 followed by
/// every byte's polynomial value at that x.
pub open spec fn compact_row_bytes(polys: Seq<Seq<u8>>, p: int, nbytes: int) -> Seq<u8> {
    Seq::new(
        (nbytes + 1) as nat,
        |k: int|
            if k == 0 {
                (p + 1) as u8
            } else {
                poly_eval(polys[k - 1], (p + 1) as u8)
            },
    )
}

/// Splits the secret with the answer-derived coefficient injected at
/// polynomial position 1, and returns the compact share rows as lowercase
/// hexadecimal text. In a two-of-N scheme the polynomial's value at the
/// reserved index 3 then equals the derived share value, so that share can
/// be regenerated from the answers instead of being stored.
///
/// The secret may hold at most 32 bytes: the derived share is a 32-byte
/// digest and supplies one value per secret byte.
pub fn with_derived_share(
    secret: &[u8],
    seeds: Vec<&str>,
    shares_required: u8,
    shares_to_create: u8,
    rand: &mut rand::rngs::StdRng,
) -> (r: Result<Vec<String>, Error>)
    requires
        secret@.len() <= 32,
    ensures
        secret@.len() == 0 ==> r == Err::<Vec<String>, Error>(Error::EmptySecretArray),
        secret@.len() > 0 && shares_required > shares_to_create ==> r == Err::<Vec<String>, Error>(
            Error::UnreconstructableSecret(shares_to_create, shares_required),
        ),
        secret@.len() > 0 && shares_required <= shares_to_create && shares_to_create < 2 ==> r
            == Err::<Vec<String>, Error>(Error::InvalidNumberOfShares(shares_to_create)),
        secret@.len() > 0 && shares_required <= shares_to_create && shares_to_create >= 2
            && shares_required < 2 ==> r == Err::<Vec<String>, Error>(
            Error::InvalidNumberOfCoefficients(max_fixed_coefficients(shares_required), 1),
        ),
        secret@.len() > 0 && shares_required <= shares_to_create && shares_to_create >= 2
            && shares_required >= 2 ==> (r matches Ok(hex_shares) && exists|polys: Seq<Seq<u8>>|
            #![trigger derived_polys_shape(secret@, shares_required, derive_spec(seed_views(seeds@)), polys)]
            derived_polys_shape(secret@, shares_required, derive_spec(seed_views(seeds@)), polys)
                && hex_shares@.len() == shares_to_create as int && forall|p: int|
                0 <= p < hex_shares@.len() ==> hex_shares@[p]@ == hex_of(
                    compact_row_bytes(polys, p, secret@.len() as int),
                )),
{
    let ghost views = seed_views(seeds@);
    let derived = derived_share(seeds);
    let coeff = calculate_derived_coeff(secret, derived.as_slice());
    let ghost gcoeff = coeff@;
    let mut cols: Vec<Vec<u8>> = Vec::new();
    cols.push(coeff);
    let ghost gcols = Some(cols);
    let shares = match from_secrets_no_points(
        secret,
        shares_required,
        shares_to_create,
        Some(cols),
        rand,
    ) {
        Ok(shares) => shares,
        Err(e) => {
            return Err(e);
        },
    };
    let ghost polys = choose|polys: Seq<Seq<u8>>|
        #![auto]
        crate::basic_sharing::polys_shape(secret@, shares_required, gcols, polys)
            && crate::basic_sharing::compact_rows_match(
            shares@,
            polys,
            shares_to_create,
            secret@.len() as int,
        );
    proof {
        let n = secret@.len() as int;
        assert forall|b: int| 0 <= b < n implies crate::basic_sharing::given_col(gcols, n, b)
            =~= seq![gf_div(gf_add(derive_spec(views)[b], secret@[b]), 3)] by {
            assert(crate::basic_sharing::cols_of(gcols).len() == 1);
            assert(crate::basic_sharing::cols_of(gcols)[0]@ == gcoeff);
            assert(crate::basic_sharing::normalize_col(gcoeff, n) =~= gcoeff);
            assert(crate::basic_sharing::given_col(gcols, n, b)[0] == gcoeff[b]);
            assert(gcoeff[b] == gf_div(gf_add(derive_spec(views)[b], secret@[b]), 3));
        }
        assert(derived_polys_shape(secret@, shares_required, derive_spec(views), polys));
    }
    let mut hex_shares: Vec<String> = Vec::new();
    let mut p: usize = 0;
    while p < shares.len()
        invariant
            p <= shares@.len(),
            crate::basic_sharing::compact_rows_match(
                shares@,
                polys,
                shares_to_create,
                secret@.len() as int,
            ),
            hex_shares@.len() == p,
            forall|q: int|
                0 <= q < p ==> hex_shares@[q]@ == hex_of(
                    compact_row_bytes(polys, q, secret@.len() as int),
                ),
        decreases shares@.len() - p,
    {
        proof {
            assert(shares@[p as int]@ =~= compact_row_bytes(polys, p as int, secret@.len() as int));
        }
        let h = to_hex(shares[p].as_slice());
        hex_shares.push(h);
        p = p + 1;
    }
    Ok(hex_shares)
}

/// The injected coefficient does its job: a degree-one polynomial with
/// constant term a0 and the solved coefficient (f3 - a0) / 3 at position 1
/// evaluates to f3 at the reserved index 3.
pub proof fn lemma_derived_coefficient_recovers(a0: u8, f3: u8)
    ensures
        poly_eval(seq![a0, gf_div(gf_add(f3, a0), 3)], 3) == f3,
{
    let a1 = gf_div(gf_add(f3, a0), 3);
    let c = seq![a0, a1];
    assert(c.drop_first() =~= seq![a1]);
    assert(seq![a1].drop_first() =~= Seq::<u8>::empty());
    assert(seq![a1].len() == 1 && seq![a1][0] == a1);
    assert(poly_eval(Seq::<u8>::empty(), 3) == 0);
    assert(poly_eval(seq![a1], 3) == gf_add(a1, gf_mul(3, 0u8)));
    assert(a1 ^ 0u8 == a1) by (bit_vector);
    lemma_mul_three_cancel(gf_add(f3, a0));
    assert(a0 ^ (f3 ^ a0) == f3) by (bit_vector);
}

/// In a two-of-N scheme, every polynomial that `with_derived_share` builds
/// takes the derived share's byte as its value at the reserved index 3: the
/// derived share never needs to be stored.
pub proof fn lemma_derived_share_evaluates(
    secret: Seq<u8>,
    derived: Seq<u8>,
    polys: Seq<Seq<u8>>,
    b: int,
)
    requires
        derived_polys_shape(secret, 2, derived, polys),
        0 <= b < secret.len(),
    ensures
        poly_eval(polys[b], 3) == derived[b],
{
    assert(share_poly_shape(
        secret[b],
        2,
        seq![gf_div(gf_add(derived[b], secret[b]), 3)],
        polys[b],
    ));
    assert(polys[b] =~= seq![secret[b], gf_div(gf_add(derived[b], secret[b]), 3)]);
    lemma_derived_coefficient_recovers(secret[b], derived[b]);
}

} // verus!
