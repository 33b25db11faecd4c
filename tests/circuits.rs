use tornado_halo2::circuits::{HashCircuit, MerkleCircuit, TornadoCircuit};
use tornado_halo2::field::Fe;
use tornado_halo2::plonk::Error;
use tornado_halo2::reference::{compute_root, hash_value, hash_values};

fn fe(n: u64) -> Fe {
    Fe::from_u64(n)
}

fn fes(values: &[u64]) -> Vec<Fe> {
    values.iter().map(|v| fe(*v)).collect()
}

fn merkle_circuit(leaf: u64, elements: &[u64], indices: &[u64]) -> MerkleCircuit {
    MerkleCircuit {
        leaf: fe(leaf),
        path_elements: fes(elements),
        path_indices: fes(indices),
    }
}

fn mixer_circuit(indices: &[u64]) -> TornadoCircuit {
    TornadoCircuit {
        nullifier: fe(0x456),
        secret: fe(0xabc),
        path_elements: fes(&[2, 5, 7, 14, 23]),
        path_indices: fes(indices),
    }
}

#[test]
fn hash_test_hash_circuit() {
    let a = 11;
    let b = 7;

    let circuit = HashCircuit { a: fe(a), b: fe(b) };
    let public_inputs = vec![fe(a * b)];
    assert!(circuit.verify(&vec![public_inputs.clone()]));

    let public_inputs2 = vec![fe(a * b + 1)];
    assert!(!circuit.verify(&vec![public_inputs2.clone()]));
}

#[test]
fn merkle_test_merkle_circuit() {
    let leaf = 123;
    let elements = vec![2, 7, 6, 5, 5, 4];
    let indices = vec![0, 1, 1, 0, 1, 0];
    let root = leaf * elements.iter().product::<u64>();

    let circuit = merkle_circuit(leaf, &elements, &indices);
    let public_input = vec![fe(leaf), fe(root)];
    assert_eq!(circuit.verify(&vec![public_input]), Ok(true));
}

#[test]
fn merkle_test_merkle_circuit_err() {
    let leaf = 123;
    let elements = vec![2, 7, 6, 5, 5, 4];
    let indices = vec![0, 1, 1, 0, 1, 2];
    let root = leaf * elements.iter().product::<u64>();

    let circuit = merkle_circuit(leaf, &elements, &indices);
    let public_input = vec![fe(leaf), fe(root)];
    assert_eq!(circuit.verify(&vec![public_input]), Ok(false));

    let public_input2 = vec![fe(leaf), fe(root + 1)];
    assert_eq!(circuit.verify(&vec![public_input2]), Ok(false));
}

#[test]
fn merkle_tree_chip_test_merkle_circuit() {
    let leaf = 123;
    let elements = vec![2, 7, 6, 5, 5, 4];
    let indices = vec![0, 1, 1, 0, 1, 0];
    let root = leaf * elements.iter().product::<u64>();

    let circuit = merkle_circuit(leaf, &elements, &indices);
    let public_input = vec![fe(leaf), fe(root)];
    assert_eq!(circuit.verify(&vec![public_input]), Ok(true));
}

#[test]
fn merkle_tree_chip_test_merkle_circuit_err() {
    let leaf = 123;
    let elements = vec![2, 7, 6, 5, 5, 4];
    let indices = vec![0, 1, 1, 0, 1, 2];
    let root = leaf * elements.iter().product::<u64>();

    let circuit = merkle_circuit(leaf, &elements, &indices);
    let public_input = vec![fe(leaf), fe(root)];
    assert_eq!(circuit.verify(&vec![public_input]), Ok(false));

    let public_input2 = vec![fe(leaf), fe(root + 1)];
    assert_eq!(circuit.verify(&vec![public_input2]), Ok(false));
}

#[test]
fn merkle_scenario_exact_root() {
    let circuit = merkle_circuit(123, &[2, 7, 6, 5, 5, 4], &[0, 1, 1, 0, 1, 0]);
    assert_eq!(circuit.verify(&vec![fes(&[123, 1_033_200])]), Ok(true));
    assert_eq!(circuit.verify(&vec![fes(&[123, 1_033_201])]), Ok(false));
    assert_eq!(circuit.verify(&vec![fes(&[123, 723_240])]), Ok(false));
    assert_eq!(circuit.verify(&vec![fes(&[124, 1_033_200])]), Ok(false));
}

#[test]
fn merkle_missing_public_value_rejected() {
    let circuit = merkle_circuit(123, &[2, 7, 6, 5, 5, 4], &[0, 1, 1, 0, 1, 0]);
    assert_eq!(circuit.verify(&vec![fes(&[123])]), Ok(false));
    assert_eq!(circuit.verify(&vec![]), Ok(false));
}

#[test]
fn merkle_empty_path_root_is_leaf() {
    let circuit = merkle_circuit(123, &[], &[]);
    assert_eq!(circuit.verify(&vec![fes(&[123, 123])]), Ok(true));
    assert_eq!(circuit.verify(&vec![fes(&[123, 124])]), Ok(false));
}

#[test]
fn merkle_path_length_mismatch_is_configuration_error() {
    let circuit = merkle_circuit(123, &[2, 7, 6], &[0, 1]);
    assert_eq!(
        circuit.verify(&vec![fes(&[123, 10332])]),
        Err(Error::PathLengthMismatch)
    );
}

#[test]
fn mixer_accepts_expected_public_inputs() {
    let circuit = mixer_circuit(&[0, 0, 1, 1, 0]);
    let nullifier_hash = hash_value(fe(0x456));
    let commitment = hash_values(&vec![fe(0x456), fe(0xabc)]);
    let root = compute_root(commitment, &fes(&[2, 5, 7, 14, 23]), &fes(&[0, 0, 1, 1, 0]));
    assert!(nullifier_hash.equals(&fe(1_232_100)));
    assert!(commitment.equals(&fe(3_050_280)));
    assert!(root.equals(&fe(68_753_311_200)));
    assert_eq!(circuit.verify(&vec![vec![nullifier_hash, root]]), Ok(true));
}

#[test]
fn mixer_rejects_perturbed_public_inputs() {
    let circuit = mixer_circuit(&[0, 0, 1, 1, 0]);
    let nh = 1_232_100;
    let root = 68_753_311_200;
    assert_eq!(circuit.verify(&vec![fes(&[nh, root])]), Ok(true));
    assert_eq!(circuit.verify(&vec![fes(&[nh ^ 1, root])]), Ok(false));
    assert_eq!(circuit.verify(&vec![fes(&[nh, root ^ 1])]), Ok(false));
    assert_eq!(circuit.verify(&vec![fes(&[nh + 1, root])]), Ok(false));
    assert_eq!(circuit.verify(&vec![fes(&[nh, root + 1])]), Ok(false));
    assert_eq!(circuit.verify(&vec![fes(&[root, nh])]), Ok(false));
}

#[test]
fn mixer_rejects_nonbinary_bit() {
    let circuit = mixer_circuit(&[0, 0, 2, 1, 0]);
    assert_eq!(circuit.verify(&vec![fes(&[1_232_100, 68_753_311_200])]), Ok(false));
    let circuit = mixer_circuit(&[0, 0, 1, 1, 5]);
    let root = compute_root(fe(3_050_280), &fes(&[2, 5, 7, 14, 23]), &fes(&[0, 0, 1, 1, 5]));
    assert_eq!(circuit.verify(&vec![vec![fe(1_232_100), root]]), Ok(false));
}

#[test]
fn mixer_path_length_mismatch_is_configuration_error() {
    let circuit = mixer_circuit(&[0, 0, 1, 1]);
    assert_eq!(
        circuit.verify(&vec![fes(&[1_232_100, 68_753_311_200])]),
        Err(Error::PathLengthMismatch)
    );
}

#[test]
fn mixer_outcome_is_deterministic() {
    let circuit = mixer_circuit(&[0, 0, 1, 1, 0]);
    let good = vec![fes(&[1_232_100, 68_753_311_200])];
    let bad = vec![fes(&[1_232_100, 68_753_311_201])];
    assert_eq!(circuit.verify(&good), circuit.verify(&good));
    assert_eq!(circuit.verify(&bad), circuit.verify(&bad));
    let bad_bit = mixer_circuit(&[0, 3, 1, 1, 0]);
    assert_eq!(bad_bit.verify(&good), bad_bit.verify(&good));
}

#[test]
fn hash_circuit_zero_and_wrapped_product() {
    let circuit = HashCircuit { a: fe(0), b: fe(12345) };
    assert!(circuit.verify(&vec![fes(&[0])]));
    assert!(!circuit.verify(&vec![fes(&[12345])]));
    let big = u64::MAX;
    let circuit = HashCircuit { a: fe(big), b: fe(big) };
    let expected = fe(big).mul(&fe(big));
    assert!(circuit.verify(&vec![vec![expected]]));
    assert!(!circuit.verify(&vec![vec![expected.add(&fe(1))]]));
}
