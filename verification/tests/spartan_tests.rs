//! End-to-end tests of the argument system: accepting runs on satisfying
//! circuits, rejecting runs on broken witnesses and tampered proofs, and
//! the byte-level determinism of proving.

use spartan_core::commitment::MLPolyCommit;
use spartan_core::curve::seeded_rng;
use spartan_core::data_structures::wire::Proof;
use spartan_core::error::Error;
use spartan_core::field::{fe_add, fe_mul, Fe};
use spartan_core::Spartan;

fn fe(x: u64) -> Fe {
    Fe::from_u64(x)
}

type Rows = Vec<Vec<(Fe, usize)>>;

/// A circuit of one squaring constraint per variable: satisfied exactly
/// when every assignment entry is 0 or 1.
fn boolean_rows(n: usize) -> Rows {
    (0..n).map(|x| vec![(fe(1), x)]).collect()
}

/// The four-variable circuit: one multiplication constraint
/// `z1 * z2 = z3`, the rest scalings by the leading one.
fn mult_circuit() -> (Rows, Rows, Rows) {
    let keep = |x: usize| (vec![(fe(1), x)], vec![(fe(1), 0)], vec![(fe(1), x)]);
    let mut a: Rows = Vec::new();
    let mut b: Rows = Vec::new();
    let mut c: Rows = Vec::new();
    a.push(vec![(fe(1), 1)]);
    b.push(vec![(fe(1), 2)]);
    c.push(vec![(fe(1), 3)]);
    for x in 1..4 {
        let (ra, rb, rc) = keep(x);
        a.push(ra);
        b.push(rb);
        c.push(rc);
    }
    (a, b, c)
}

/// A deterministic pseudo-random stream for building circuits.
struct Lcg(u64);

impl Lcg {
    fn next(&mut self) -> u64 {
        self.0 = self.0.wrapping_mul(6364136223846793005).wrapping_add(1442695040888963407);
        self.0 >> 11
    }
}

/// A random sparse circuit of 256 variables that the fixed assignment
/// satisfies: random rows in the first two matrices, and a third matrix
/// solved so each product lands on a multiple of the leading 1.
fn random_circuit() -> (Rows, Rows, Rows, Vec<Fe>, Vec<Fe>) {
    let n = 256usize;
    let v: Vec<Fe> = vec![fe(1), fe(2), fe(3), fe(4)];
    let w: Vec<Fe> = (0..252u64).map(|i| fe(i % 97 + 1)).collect();
    let mut z: Vec<Fe> = v.clone();
    z.extend(w.iter().cloned());

    let mut gen = Lcg(42);
    let mut a: Rows = (0..n).map(|_| Vec::new()).collect();
    let mut b: Rows = (0..n).map(|_| Vec::new()).collect();
    for _ in 0..64 {
        let x = (gen.next() % 256) as usize;
        let col = (gen.next() % 256) as usize;
        let val = gen.next() % 1000 + 1;
        a[x].push((fe(val), col));
        let x2 = (gen.next() % 256) as usize;
        let col2 = (gen.next() % 256) as usize;
        let val2 = gen.next() % 1000 + 1;
        b[x2].push((fe(val2), col2));
    }
    let row_dot = |row: &Vec<(Fe, usize)>| -> Fe {
        let mut acc = Fe::zero();
        for (val, col) in row.iter() {
            acc = fe_add(&acc, &fe_mul(val, &z[*col]));
        }
        acc
    };
    let c: Rows = (0..n)
        .map(|x| {
            let prod = fe_mul(&row_dot(&a[x]), &row_dot(&b[x]));
            vec![(prod, 0)]
        })
        .collect();
    (a, b, c, v, w)
}

#[test]
fn one_constraint_identity_accepts() {
    let a = boolean_rows(1);
    let v = vec![fe(1)];
    let w = vec![fe(1)];
    let pk = Spartan::index(a.clone(), a.clone(), a, v.clone(), w.clone()).unwrap();
    let vk = pk.vk();
    let mut rng = seeded_rng(1);
    let (pp, vp, _) = MLPolyCommit::keygen(pk.log_n, &mut rng).unwrap();
    let proof = Spartan::prove(pk, v.clone(), w, &pp).unwrap();
    let result = Spartan::verify(vk, v, proof, &vp).unwrap();
    assert!(result);
}

#[test]
fn mult_circuit_accepts() {
    let (a, b, c) = mult_circuit();
    let v = vec![fe(1), fe(2)];
    let w = vec![fe(2), fe(4)];
    let pk = Spartan::index(a, b, c, v.clone(), w.clone()).unwrap();
    let vk = pk.vk();
    let mut rng = seeded_rng(2);
    let (pp, vp, _) = MLPolyCommit::keygen(pk.log_n, &mut rng).unwrap();
    let proof = Spartan::prove(pk, v.clone(), w, &pp).unwrap();
    let result = Spartan::verify(vk, v, proof, &vp).unwrap();
    assert!(result);
}

#[test]
fn broken_witness_rejected() {
    let (a, b, c) = mult_circuit();
    let v = vec![fe(1), fe(2)];
    let w = vec![fe(2), fe(5)];
    let pk = Spartan::index(a, b, c, v.clone(), w.clone()).unwrap();
    let vk = pk.vk();
    let mut rng = seeded_rng(3);
    let (pp, vp, _) = MLPolyCommit::keygen(pk.log_n, &mut rng).unwrap();
    let proof = Spartan::prove(pk, v.clone(), w, &pp).unwrap();
    let result = Spartan::verify(vk, v, proof, &vp);
    match result {
        Err(Error::FirstSubclaim) | Err(Error::SecondSubclaim) | Err(Error::SumcheckMismatch) => {},
        other => panic!("broken witness must be rejected, got {:?}", other.is_ok()),
    }
}

#[test]
fn random_circuit_accepts_deterministically() {
    let (a, b, c, v, w) = random_circuit();
    let pk = Spartan::index(a, b, c, v.clone(), w.clone()).unwrap();
    assert_eq!(pk.log_n, 8);
    assert_eq!(pk.log_v, 2);
    let vk = pk.vk();
    let vk2 = pk.vk();
    let mut rng = seeded_rng(4);
    let (pp, vp, _) = MLPolyCommit::keygen(pk.log_n, &mut rng).unwrap();
    let pk2 = Spartan::index(
        random_circuit().0,
        random_circuit().1,
        random_circuit().2,
        v.clone(),
        w.clone(),
    )
    .unwrap();
    let proof1 = Spartan::prove(pk, v.clone(), w.clone(), &pp).unwrap();
    let proof2 = Spartan::prove(pk2, v.clone(), w.clone(), &pp).unwrap();
    let bytes1 = proof1.to_bytes();
    let bytes2 = proof2.to_bytes();
    // two runs on the same inputs give byte-identical proofs
    assert_eq!(bytes1, bytes2);

    // the serialised proof round-trips and still verifies
    let decoded = Proof::from_bytes(&bytes1, 8).unwrap();
    assert_eq!(decoded.to_bytes(), bytes1);
    let result = Spartan::verify(vk, v.clone(), decoded, &vp).unwrap();
    assert!(result);
    let result2 = Spartan::verify(vk2, v, proof1, &vp).unwrap();
    assert!(result2);
}

#[test]
fn tampered_proof_bytes_rejected() {
    let (a, b, c) = mult_circuit();
    let v = vec![fe(1), fe(2)];
    let w = vec![fe(2), fe(4)];
    let pk = Spartan::index(a.clone(), b.clone(), c.clone(), v.clone(), w.clone()).unwrap();
    let n = pk.log_n;
    let mut rng = seeded_rng(5);
    let (pp, vp, _) = MLPolyCommit::keygen(n, &mut rng).unwrap();
    let proof = Spartan::prove(pk, v.clone(), w.clone(), &pp).unwrap();
    let bytes = proof.to_bytes();

    for pos in [0usize, 47, 48 + 16, bytes.len() / 2, bytes.len() - 1] {
        let mut mutated = bytes.clone();
        mutated[pos] ^= 1;
        match Proof::from_bytes(&mutated, n) {
            Err(Error::SerializationError) => {},
            Err(_) => panic!("decoding only fails with a serialization error"),
            Ok(decoded) => {
                let fresh = Spartan::index(a.clone(), b.clone(), c.clone(), v.clone(), w.clone())
                    .unwrap();
                let outcome = Spartan::verify(fresh.vk(), v.clone(), decoded, &vp);
                assert!(outcome.is_err(), "tampered byte at {} must be rejected", pos);
            },
        }
    }
}

#[test]
fn tampered_sumcheck_message_rejected() {
    let (a, b, c) = mult_circuit();
    let v = vec![fe(1), fe(2)];
    let w = vec![fe(2), fe(4)];
    let pk = Spartan::index(a, b, c, v.clone(), w.clone()).unwrap();
    let vk = pk.vk();
    let mut rng = seeded_rng(6);
    let (pp, vp, _) = MLPolyCommit::keygen(pk.log_n, &mut rng).unwrap();
    let mut proof = Spartan::prove(pk, v.clone(), w, &pp).unwrap();
    proof.first_sumcheck_messages[0].evaluations[0] = fe(12345);
    let result = Spartan::verify(vk, v, proof, &vp);
    match result {
        Err(Error::SumcheckMismatch) | Err(Error::FirstSubclaim) => {},
        other => panic!("tampered round message must be rejected, got ok={}", other.is_ok()),
    }
}

#[test]
fn verifier_key_projects_the_prover_key() {
    let (a, b, c) = mult_circuit();
    let v = vec![fe(1), fe(2)];
    let w = vec![fe(2), fe(4)];
    let pk = Spartan::index(a, b, c, v, w).unwrap();
    let vk = pk.vk();
    assert_eq!(vk.log_n, pk.log_n);
    assert_eq!(vk.log_v, pk.log_v);
    assert_eq!(vk.v, pk.v);
    for (m1, m2) in [(&vk.matrix_a, &pk.matrix_a), (&vk.matrix_b, &pk.matrix_b), (
        &vk.matrix_c,
        &pk.matrix_c,
    )] {
        assert_eq!(m1.num_constraints(), m2.num_constraints());
        assert_eq!(m1.num_vars(), m2.num_vars());
        for x in 0..m1.num_constraints() {
            assert_eq!(m1.row_len(x), m2.row_len(x));
            for k in 0..m1.row_len(x) {
                assert_eq!(m1.row_entry(x, k), m2.row_entry(x, k));
            }
        }
    }
}

#[test]
fn malformed_instance_rejected() {
    // a three-entry assignment is not a power of two
    let a = boolean_rows(3);
    let v = vec![fe(1)];
    let w = vec![fe(1), fe(1)];
    assert_eq!(
        Spartan::index(a.clone(), a.clone(), a, v, w).err(),
        Some(Error::InvalidArg)
    );
    // a column index beyond the width is rejected
    let bad = vec![vec![(fe(1), 7)]];
    assert_eq!(
        Spartan::index(bad.clone(), bad.clone(), bad, vec![fe(1)], vec![fe(1)]).err(),
        Some(Error::InvalidArg)
    );
}

#[test]
fn garbage_bytes_fail_decoding() {
    let junk: Vec<u8> = (0..200u32).map(|i| (i % 251) as u8).collect();
    assert_eq!(Proof::from_bytes(&junk, 2).err(), Some(Error::SerializationError));
    let empty: Vec<u8> = Vec::new();
    assert_eq!(Proof::from_bytes(&empty, 1).err(), Some(Error::SerializationError));
}
