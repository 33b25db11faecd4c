use tornado_halo2::circuits::{MerkleCircuit, TornadoCircuit};
use tornado_halo2::field::Fe;
use tornado_halo2::merkle_chip::MerkleChip;
use tornado_halo2::plonk::{AssignedCell, CellRef, ConstraintSystem, Layouter, Row};
use tornado_halo2::tornado_chip::TornadoChip;

fn fes(values: &[u64]) -> Vec<Fe> {
    values.iter().map(|v| Fe::from_u64(*v)).collect()
}

fn enabled(row: &Row) -> Vec<usize> {
    (0..row.enabled.len()).filter(|s| row.enabled[*s]).collect()
}

#[test]
fn mixer_feeds_one_nullifier_cell_into_both_hashes() {
    let circuit = TornadoCircuit {
        nullifier: Fe::from_u64(0x456),
        secret: Fe::from_u64(0xabc),
        path_elements: fes(&[2, 5, 7, 14, 23]),
        path_indices: fes(&[0, 0, 1, 1, 0]),
    };
    let mut meta = ConstraintSystem::new();
    let config = TornadoCircuit::configure(&mut meta);
    let mut layouter = Layouter::new();
    assert_eq!(circuit.synthesize(&config, &meta, &mut layouter), Ok(()));
    assert_eq!(layouter.rows.len(), 3 + 3 * 5);
    assert_eq!(layouter.copies.len(), 4 + 3 * 5);
    let nullifier_cell = CellRef { row: 0, column: config.advice[0].index };
    let secret_cell = CellRef { row: 0, column: config.advice[1].index };
    let h = config.hash_config.advice;
    assert_eq!(layouter.copies[0], (nullifier_cell, CellRef { row: 1, column: h[0].index }));
    assert_eq!(layouter.copies[1], (nullifier_cell, CellRef { row: 1, column: h[1].index }));
    assert_eq!(layouter.copies[2], (nullifier_cell, CellRef { row: 2, column: h[0].index }));
    assert_eq!(layouter.copies[3], (secret_cell, CellRef { row: 2, column: h[1].index }));
    assert_eq!(layouter.bindings[0].cell, CellRef { row: 1, column: h[2].index });
    assert!(enabled(&layouter.rows[0]).is_empty());
    assert_eq!(enabled(&layouter.rows[1]), vec![config.hash_config.hash_selector.index]);
}

#[test]
fn merkle_layer_lays_out_swap_region_and_hash_row() {
    let mut meta = ConstraintSystem::new();
    let config = MerkleCircuit::configure(&mut meta);
    let chip = MerkleChip::construct(config);
    let mut layouter = Layouter::new();
    let mut row = Row::new(meta.num_advice, meta.num_selectors);
    row.assign(config.advice[0].index, Fe::from_u64(9));
    let start = layouter.assign_region(vec![row]);
    let node = AssignedCell {
        cell: CellRef { row: start, column: config.advice[0].index },
        value: Fe::from_u64(9),
    };
    let out = chip.merkle_prove_layer(&meta, &mut layouter, &node, Fe::from_u64(4), Fe::one());
    assert!(out.value.equals(&Fe::from_u64(36)));
    assert_eq!(layouter.rows.len(), 4);
    let mut swap_row = vec![config.swap_selector.index, config.swap_bit_bool_selector.index];
    swap_row.sort();
    assert_eq!(enabled(&layouter.rows[1]), swap_row);
    assert!(enabled(&layouter.rows[2]).is_empty());
    assert_eq!(enabled(&layouter.rows[3]), vec![config.hash_config.hash_selector.index]);
    let a = config.advice;
    let sibling = layouter.rows[2].cells[a[0].index].unwrap();
    let moved = layouter.rows[2].cells[a[1].index].unwrap();
    assert!(sibling.equals(&Fe::from_u64(4)));
    assert!(moved.equals(&Fe::from_u64(9)));
    assert_eq!(layouter.copies[0], (node.cell, CellRef { row: 1, column: a[0].index }));
    assert_eq!(out.cell, CellRef { row: 3, column: config.hash_config.advice[2].index });
}

#[test]
fn compute_hash_copies_input_row_into_hash_row() {
    let mut meta = ConstraintSystem::new();
    let config = TornadoCircuit::configure(&mut meta);
    let chip = TornadoChip::construct(config);
    let mut layouter = Layouter::new();
    let out = chip.compute_hash(&meta, &mut layouter, Fe::from_u64(6), Fe::from_u64(7));
    assert!(out.value.equals(&Fe::from_u64(42)));
    assert_eq!(layouter.rows.len(), 2);
    let a = config.advice;
    let h = config.hash_config.advice;
    assert_eq!(
        layouter.copies,
        vec![
            (CellRef { row: 0, column: a[0].index }, CellRef { row: 1, column: h[0].index }),
            (CellRef { row: 0, column: a[1].index }, CellRef { row: 1, column: h[1].index }),
        ]
    );
}
