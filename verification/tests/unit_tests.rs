//! Exact-value tests of the building blocks: dense extensions, the eq
//! factorisation, the sparse matrix reader, and the two remaining error
//! paths of verification.

use spartan_core::commitment::MLPolyCommit;
use spartan_core::curve::seeded_rng;
use spartan_core::data_structures::eq::eq_extension;
use spartan_core::data_structures::ml_extension::DenseMle;
use spartan_core::data_structures::r1cs_reader::MatrixExtension;
use spartan_core::drivers::r1cs_reader::R1CSReader;
use spartan_core::error::Error;
use spartan_core::field::{fe_neg, Fe};
use spartan_core::Spartan;

fn fe(x: u64) -> Fe {
    Fe::from_u64(x)
}

fn mle(vals: &[u64]) -> DenseMle {
    DenseMle::from_table(vals.iter().map(|&x| fe(x)).collect()).unwrap()
}

#[test]
fn dense_extension_evaluates_exactly() {
    // the table [1, 2, 3, 4] extends to 1 + x0 + 2 x1; at (2, 3) that is 9
    let f = mle(&[1, 2, 3, 4]);
    let point = vec![fe(2), fe(3)];
    assert_eq!(f.eval_at(&point), fe(9));
    // on the cube it reproduces the table
    assert_eq!(f.eval_at(&vec![fe(0), fe(0)]), fe(1));
    assert_eq!(f.eval_at(&vec![fe(1), fe(0)]), fe(2));
    assert_eq!(f.eval_at(&vec![fe(0), fe(1)]), fe(3));
    assert_eq!(f.eval_at(&vec![fe(1), fe(1)]), fe(4));
    assert_eq!(f.sum_over_cube(), fe(10));
}

#[test]
fn binding_halves_the_table() {
    let mut f = mle(&[1, 2, 3, 4]);
    // at c = 5 the pairs fold to (1-5)*1 + 5*2 = 6 and (1-5)*3 + 5*4 = 8
    f.bind_first(&fe(5));
    assert_eq!(f.num_vars(), 1);
    assert_eq!(f.entry(0), fe(6));
    assert_eq!(f.entry(1), fe(8));
}

#[test]
fn non_power_of_two_table_rejected() {
    let bad: Vec<Fe> = vec![fe(1), fe(2), fe(3)];
    assert!(DenseMle::from_table(bad).is_err());
}

#[test]
fn eq_factors_read_single_bits() {
    // for t = (2,) the single factor's table is (1 - 2, 2)
    let t = vec![fe(2)];
    let factors = eq_extension(&t);
    assert_eq!(factors.len(), 1);
    assert_eq!(factors[0].entry(0), fe_neg(&Fe::one()));
    assert_eq!(factors[0].entry(1), fe(2));
}

#[test]
fn sum_over_y_takes_row_sums_against_z() {
    let rows = vec![vec![(fe(1), 0usize)], vec![(fe(2), 1usize)]];
    let m = MatrixExtension::new(rows, 2).unwrap();
    let z = mle(&[3, 5]);
    let t = m.sum_over_y(&z);
    assert_eq!(t.entry(0), fe(3));
    assert_eq!(t.entry(1), fe(10));
}

#[test]
fn eval_on_x_slices_at_cube_points() {
    let rows = vec![vec![(fe(1), 0usize)], vec![(fe(2), 1usize)]];
    let m = MatrixExtension::new(rows, 2).unwrap();
    // at the cube point 0 the slice is row 0; at 1, row 1
    let row0 = m.eval_on_x(&vec![fe(0)]);
    assert_eq!(row0.entry(0), fe(1));
    assert_eq!(row0.entry(1), fe(0));
    let row1 = m.eval_on_x(&vec![fe(1)]);
    assert_eq!(row1.entry(0), fe(0));
    assert_eq!(row1.entry(1), fe(2));
}

#[test]
fn reader_wraps_a_frontend_matrix() {
    let rows = vec![vec![(fe(1), 0usize)], vec![(fe(2), 1usize)]];
    let reader = R1CSReader::setup(rows, 1, 0, 2).unwrap();
    let z = mle(&[3, 5]);
    let t = reader.sum_over_y(&z).unwrap();
    assert_eq!(t.entry(0), fe(3));
    assert_eq!(t.entry(1), fe(10));
    let sliced = reader.eval_on_x(&vec![fe(7)]).unwrap();
    // the slice at 7 is (1-7) * row0 + 7 * row1
    assert_eq!(sliced.entry(0), fe_neg(&fe(6)));
    assert_eq!(sliced.entry(1), fe(14));
    // inconsistent bookkeeping is rejected
    assert!(R1CSReader::setup(vec![vec![(fe(1), 0usize)]], 5, 7, 1).is_err());
}

fn simple_instance() -> (Vec<Vec<(Fe, usize)>>, Vec<Vec<(Fe, usize)>>, Vec<Fe>, Vec<Fe>) {
    // each row scales one variable by the leading one, so any assignment
    // headed by 1 satisfies the system
    let ac: Vec<Vec<(Fe, usize)>> = (0..4).map(|x| vec![(fe(1), x)]).collect();
    let b: Vec<Vec<(Fe, usize)>> = (0..4).map(|_| vec![(fe(1), 0usize)]).collect();
    (ac, b, vec![fe(1)], vec![fe(2), fe(3), fe(5)])
}

#[test]
fn wrong_public_input_rejected() {
    let (ac, b, v, w) = simple_instance();
    let pk = Spartan::index(ac.clone(), b, ac, v.clone(), w.clone()).unwrap();
    let vk = pk.vk();
    let mut rng = seeded_rng(31);
    let (pp, vp, _) = MLPolyCommit::keygen(pk.log_n, &mut rng).unwrap();
    let proof = Spartan::prove(pk, v, w, &pp).unwrap();
    // verifying against a different public input trips the
    // public-input check
    let outcome = Spartan::verify(vk, vec![fe(3)], proof, &vp);
    assert_eq!(outcome.err(), Some(Error::PublicInputMismatch));
}

#[test]
fn swapped_opening_rejected() {
    let (ac, b, v, w) = simple_instance();
    let pk = Spartan::index(ac.clone(), b, ac, v.clone(), w.clone()).unwrap();
    let vk = pk.vk();
    let mut rng = seeded_rng(37);
    let (pp, vp, _) = MLPolyCommit::keygen(pk.log_n, &mut rng).unwrap();
    let mut proof = Spartan::prove(pk, v.clone(), w, &pp).unwrap();
    // replace the final opening by the public-input opening: the
    // residual claim still holds, but the pairing check cannot
    let copied: Vec<_> = proof
        .prover_second_message
        .proof_for_z_rv_0
        .proofs
        .iter()
        .map(|e| e.duplicate())
        .collect();
    proof.prover_sixth_message.proof_for_z_ry =
        spartan_core::commitment::open::Proof { proofs: copied };
    let outcome = Spartan::verify(vk, v, proof, &vp);
    assert_eq!(outcome.err(), Some(Error::OpeningMismatch));
}

#[test]
fn mismatched_parameters_rejected() {
    let (ac, b, v, w) = simple_instance();
    let pk = Spartan::index(ac.clone(), b, ac, v.clone(), w.clone()).unwrap();
    let mut rng = seeded_rng(41);
    // parameters sized for a different instance
    let (pp, _, _) = MLPolyCommit::keygen(pk.log_n + 1, &mut rng).unwrap();
    assert_eq!(Spartan::prove(pk, v, w, &pp).err(), Some(Error::InvalidArg));
}
