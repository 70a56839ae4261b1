//! Tests that drive the protocol round by round, with one shared
//! transcript standing in for the public-coin verifier.

use spartan_core::ahp::AHPForSpartan;
use spartan_core::commitment::MLPolyCommit;
use spartan_core::curve::seeded_rng;
use spartan_core::error::Error;
use spartan_core::field::{fe_add, fe_mul, Fe};
use spartan_core::transcript::Transcript;

fn fe(x: u64) -> Fe {
    Fe::from_u64(x)
}

type Rows = Vec<Vec<(Fe, usize)>>;

struct Lcg(u64);

impl Lcg {
    fn next(&mut self) -> u64 {
        self.0 = self.0.wrapping_mul(6364136223846793005).wrapping_add(1442695040888963407);
        self.0 >> 11
    }
}

fn random_circuit(log_n: usize, log_v: usize) -> (Rows, Rows, Rows, Vec<Fe>, Vec<Fe>) {
    let n = 1usize << log_n;
    let nv = 1usize << log_v;
    let mut v: Vec<Fe> = vec![fe(1)];
    v.extend((1..nv as u64).map(|i| fe(i + 1)));
    let w: Vec<Fe> = (0..(n - nv) as u64).map(|i| fe(i % 89 + 2)).collect();
    let mut z: Vec<Fe> = v.clone();
    z.extend(w.iter().cloned());

    let mut gen = Lcg(7);
    let mut a: Rows = (0..n).map(|_| Vec::new()).collect();
    let mut b: Rows = (0..n).map(|_| Vec::new()).collect();
    for _ in 0..(n / 4) {
        let x = (gen.next() as usize) % n;
        a[x].push((fe(gen.next() % 500 + 1), (gen.next() as usize) % n));
        let x2 = (gen.next() as usize) % n;
        b[x2].push((fe(gen.next() % 500 + 1), (gen.next() as usize) % n));
    }
    let row_dot = |row: &Vec<(Fe, usize)>| -> Fe {
        let mut acc = Fe::zero();
        for (val, col) in row.iter() {
            acc = fe_add(&acc, &fe_mul(val, &z[*col]));
        }
        acc
    };
    let c: Rows = (0..n)
        .map(|x| vec![(fe_mul(&row_dot(&a[x]), &row_dot(&b[x])), 0)])
        .collect();
    (a, b, c, v, w)
}

fn test_circuit(log_n: usize, log_v: usize, seed: u64) -> Result<(), Error> {
    let (ma, mb, mc, v, w) = random_circuit(log_n, log_v);

    let mut rng = seeded_rng(seed);
    let (pp, vp, _) = MLPolyCommit::keygen(log_n, &mut rng)?;

    let pk = AHPForSpartan::index(ma, mb, mc, v.clone(), w.clone())?;
    assert_eq!(pk.log_n, log_n);
    let vk = pk.vk();

    let ps = AHPForSpartan::prover_init(pk, v.clone(), w)?;
    let vs = AHPForSpartan::verifier_init(vk, v)?;

    // one transcript plays the public-coin verifier for both sides
    let mut coins = Transcript::new();

    let (ps, pm) = AHPForSpartan::prover_first_round(ps, &pp)?;
    let (vs, vm) = AHPForSpartan::verify_first_round(vs, pm, &mut coins)?;

    let (ps, pm) = AHPForSpartan::prover_second_round(ps, vm, &pp)?;
    let (vs, vm) = AHPForSpartan::verify_second_round(vs, pm, &mut coins, &vp)?;

    let (mut ps, pm) = AHPForSpartan::prover_third_round(ps, vm)?;
    let (mut vs, mut vm) = AHPForSpartan::verify_third_round(vs, pm)?;

    for _ in 0..(log_n - 1) {
        let (ps_new, pm) = AHPForSpartan::prove_first_sumcheck_round(ps, vm)?;
        ps = ps_new;
        let (vs_new, vm_new) = AHPForSpartan::verify_first_sumcheck_ongoing_round(
            vs,
            pm,
            &mut coins,
        )?;
        vs = vs_new;
        vm = vm_new;
    }

    let (ps, pm) = AHPForSpartan::prove_first_sumcheck_round(ps, vm)?;
    let (vs, vm) = AHPForSpartan::verify_first_sumcheck_final_round(vs, pm, &mut coins)?;

    let (ps, pm) = AHPForSpartan::prove_fourth_round(ps, vm)?;
    let (vs, vm) = AHPForSpartan::verify_fourth_round(vs, pm, &mut coins)?;

    let (mut ps, pm) = AHPForSpartan::prove_fifth_round(ps, vm)?;
    let (mut vs, mut vm) = AHPForSpartan::verify_fifth_round(vs, pm)?;

    for _ in 0..(log_n - 1) {
        let (ps_new, pm) = AHPForSpartan::prove_second_sumcheck_round(ps, vm)?;
        ps = ps_new;
        let (vs_new, vm_new) = AHPForSpartan::verify_second_sumcheck_ongoing_round(
            vs,
            pm,
            &mut coins,
        )?;
        vs = vs_new;
        vm = vm_new;
    }

    let (ps, pm) = AHPForSpartan::prove_second_sumcheck_round(ps, vm)?;
    let (vs, vm) = AHPForSpartan::verify_second_sumcheck_final_round(vs, pm, &mut coins)?;

    let pm = AHPForSpartan::prove_sixth_round(ps, vm, &pp)?;
    let result = AHPForSpartan::verify_sixth_round(vs, pm, &vp)?;

    if result {
        Ok(())
    } else {
        Err(Error::OpeningMismatch)
    }
}

#[test]
fn test_small() {
    test_circuit(8, 2, 1).expect("fail to test small");
}

#[test]
fn round_by_round_on_a_tiny_instance() {
    test_circuit(2, 1, 9).expect("the tiny instance must verify");
}

#[test]
fn transcripts_agree_on_identical_feeds() {
    let mut t1 = Transcript::new();
    let mut t2 = Transcript::new();
    let msg: Vec<u8> = vec![1, 2, 3, 250];
    t1.feed(&msg);
    t2.feed(&msg);
    let a = t1.sample_field();
    let b = t2.sample_field();
    assert_eq!(a, b);
    // and they keep agreeing after the sample ratchets the state
    assert_eq!(t1.sample_field(), t2.sample_field());
    // a diverging feed diverges the samples
    let mut t3 = Transcript::new();
    let other: Vec<u8> = vec![1, 2, 3, 251];
    t3.feed(&other);
    let mut t4 = Transcript::new();
    t4.feed(&msg);
    assert_ne!(t3.sample_field(), t4.sample_field());
}
