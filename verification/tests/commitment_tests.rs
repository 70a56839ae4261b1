//! Tests of the polynomial commitment: setup determinism, the commitment
//! identity against the returned secret point, and opening round trips.

use spartan_core::commitment::MLPolyCommit;
use spartan_core::curve::{g1_scale, g2_scale, seeded_rng};
use spartan_core::data_structures::ml_extension::DenseMle;
use spartan_core::field::{fe_add, fe_mul, fe_sub, Fe};

fn fe(x: u64) -> Fe {
    Fe::from_u64(x)
}

fn poly_from(vals: &[u64]) -> DenseMle {
    let table: Vec<Fe> = vals.iter().map(|&x| fe(x)).collect();
    DenseMle::from_table(table).expect("table length must be a power of two")
}

/// The eq indicator of the point `t`, evaluated at the cube index `b`.
fn eq_at(t: &[Fe], b: usize) -> Fe {
    let one = Fe::one();
    let mut acc = one;
    for (j, tj) in t.iter().enumerate() {
        let factor = if (b >> j) & 1 == 1 { *tj } else { fe_sub(&one, tj) };
        acc = fe_mul(&acc, &factor);
    }
    acc
}

#[test]
fn setup_test() {
    let nv = 5usize;
    let mut rng = seeded_rng(7);
    let (pp_actual, _, t) = MLPolyCommit::keygen(nv, &mut rng).unwrap();

    // rebuild the expected masked tables from the returned secret: table
    // `i` holds the generator raised to the eq indicator of the secret's
    // tail, entry by entry
    for i in 0..nv {
        let tail = &t[i..];
        let size = 1usize << (nv - i);
        assert_eq!(pp_actual.powers_of_g[i].len(), size);
        assert_eq!(pp_actual.powers_of_h[i].len(), size);
        for b in 0..size {
            let scalar = eq_at(tail, b);
            assert!(
                pp_actual.powers_of_g[i][b].to_bytes() == g1_scale(&pp_actual.g, &scalar).to_bytes()
            );
            assert!(
                pp_actual.powers_of_h[i][b].to_bytes() == g2_scale(&pp_actual.h, &scalar).to_bytes()
            );
        }
    }

    // and setup is deterministic in its seed
    let mut rng2 = seeded_rng(7);
    let (pp_again, _, _) = MLPolyCommit::keygen(nv, &mut rng2).unwrap();
    assert!(pp_actual.h.to_bytes() == pp_again.h.to_bytes());
    assert!(
        pp_actual
            .powers_of_h
            .iter()
            .zip(pp_again.powers_of_h.iter())
            .all(|(a, b)| a.iter().zip(b.iter()).all(|(x, y)| x.to_bytes() == y.to_bytes()))
    );
}

#[test]
fn commit_test() {
    let mut rng = seeded_rng(11);
    let (pp, _, t) = MLPolyCommit::keygen(4, &mut rng).unwrap();
    let vals: Vec<u64> = (0..16u64).map(|i| 3 * i * i + 7 * i + 1).collect();
    let poly = poly_from(&vals);
    // the commitment must equal the generator raised to the polynomial's
    // value at the secret point
    let f_at_t = poly.eval_at(&t);
    let expected = g1_scale(&pp.g, &f_at_t);
    let actual = MLPolyCommit::commit(&pp, &poly).unwrap();

    assert_eq!(actual.g_product.to_bytes(), expected.to_bytes());
}

#[test]
fn sanity() {
    let nv = 5usize;
    let mut rng1 = seeded_rng(23);
    let (pp, vp, s) = MLPolyCommit::keygen(nv, &mut rng1).unwrap();
    let vals: Vec<u64> = (0..(1u64 << nv)).map(|i| 11 * i + 5).collect();
    let poly = poly_from(&vals);
    let point: Vec<Fe> = (0..nv as u64).map(|i| fe(1000 + i)).collect();
    let com = MLPolyCommit::commit(&pp, &poly).expect("cannot commit");
    let (ev, pf, q) = MLPolyCommit::open(&pp, &poly, &point).expect("cannot open");
    {
        // each proof component must be h raised to the quotient's value at
        // the tail of the secret point
        for i in 0..nv {
            let k = nv - i;
            let q_i: Vec<Fe> = (0..(1usize << k)).map(|a| q[k][a >> 1]).collect();
            let q_i = DenseMle::from_table(q_i).unwrap();
            let tail: Vec<Fe> = s[i..].to_vec();
            let expected = g2_scale(&pp.h, &q_i.eval_at(&tail));
            assert_eq!(expected.to_bytes(), pf.proofs[i].to_bytes(), "open error");
        }
        assert_eq!(ev, poly.eval_at(&point));
    }

    let result = MLPolyCommit::verify(&vp, &com, &point, &ev, &pf).expect("cannot verify");
    assert!(result);
}

#[test]
fn open_then_verify_and_tampered_value_rejected() {
    let nv = 5usize;
    let mut rng = seeded_rng(99);
    let (pp, vp, _) = MLPolyCommit::keygen(nv, &mut rng).unwrap();
    let vals: Vec<u64> = (0..32u64).map(|i| i * i + 1).collect();
    let poly = poly_from(&vals);
    let point: Vec<Fe> = vec![fe(1), fe(2), fe(3), fe(4), fe(5)];
    let com = MLPolyCommit::commit(&pp, &poly).unwrap();
    let (y, pf, _) = MLPolyCommit::open(&pp, &poly, &point).unwrap();

    let accepted = MLPolyCommit::verify(&vp, &com, &point, &y, &pf).unwrap();
    assert!(accepted);

    let tampered = fe_add(&y, &Fe::one());
    let rejected = MLPolyCommit::verify(&vp, &com, &point, &tampered, &pf).unwrap();
    assert!(!rejected);
}

#[test]
fn commitment_size_mismatch_rejected() {
    let mut rng = seeded_rng(5);
    let (pp, _, _) = MLPolyCommit::keygen(3, &mut rng).unwrap();
    let poly = poly_from(&[1, 2, 3, 4]);
    assert!(MLPolyCommit::commit(&pp, &poly).is_err());
}
