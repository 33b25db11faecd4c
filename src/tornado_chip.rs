//! The mixer chip: assigns two witness values on a fresh row and hashes them,
//! on top of a Merkle chip for the tree path.

use vstd::prelude::*;
use crate::field::Fe;
use crate::hash_chip::{HashChip, HashConfig, advice_fits, hash_spec};
use crate::merkle_chip::{MerkleChip, MerkleConfig};
use crate::plonk::{
    AdviceColumn, AssignedCell, CellRef, ConstraintSystem, InstanceColumn, Layouter, Row, cell_at,
    enabled_at, gate_holds_at, has_local_failure, lemma_append, holds_value, selectors_exactly,
};

verus! {

#[derive(Clone, Copy, Debug)]
pub struct TornadoConfig {
    pub advice: [AdviceColumn; 3],
    pub instance: InstanceColumn,
    pub merkle_config: MerkleConfig,
    pub hash_config: HashConfig,
}

impl TornadoConfig {
    pub open spec fn wf(&self, cs: &ConstraintSystem) -> bool {
        &&& advice_fits(self.advice, cs.num_advice)
        &&& self.merkle_config.wf(cs)
        &&& self.hash_config.wf(cs)
        &&& self.merkle_config.instance == self.instance
    }
}

pub struct TornadoChip {
    pub config: TornadoConfig,
}

impl TornadoChip {
    pub fn construct(config: TornadoConfig) -> (r: TornadoChip)
        ensures
            r.config == config,
    {
        TornadoChip { config }
    }

    /// Declares the Merkle chip's gates and one more hash gate on `advice`.
    pub fn configure(
        meta: &mut ConstraintSystem,
        advice: [AdviceColumn; 3],
        instance: InstanceColumn,
    ) -> (config: TornadoConfig)
        requires
            old(meta).wf(),
            advice_fits(advice, old(meta).num_advice),
            old(meta).num_selectors + 4 <= usize::MAX,
        ensures
            final(meta).wf(),
            final(meta).extends(old(meta)),
            final(meta).num_advice == old(meta).num_advice,
            final(meta).num_instance == old(meta).num_instance,
            config.wf(final(meta)),
            config.advice == advice,
            config.instance == instance,
            config.merkle_config.advice == advice,
            config.merkle_config.hash_config.advice == advice,
            config.hash_config.advice == advice,
            config.hash_config.instance == instance,
            config.merkle_config.swap_selector.index == old(meta).num_selectors,
            config.merkle_config.swap_bit_bool_selector.index == old(meta).num_selectors + 1,
            config.merkle_config.hash_config.hash_selector.index == old(meta).num_selectors + 2,
            config.hash_config.hash_selector.index == old(meta).num_selectors + 3,
            final(meta).gates@ == old(meta).gates@.push(config.merkle_config.bool_gate()).push(
                config.merkle_config.swap_gate(),
            ).push(config.merkle_config.hash_config.gate()).push(config.hash_config.gate()),
    {
        let ghost m0 = *meta;
        let merkle_config = MerkleChip::configure(meta, advice, instance);
        let ghost m1 = *meta;
        let hash_config = HashChip::configure(meta, advice, instance);
        proof {
            merkle_config.lemma_wf_extends(&m1, meta);
            let gates = meta.gates@;
            assert(m0.gates@.is_prefix_of(gates));
            assert forall|i: int| m0.gates@.len() <= i < gates.len() implies crate::plonk::selector_unused(
                m0.gates@,
                (#[trigger] gates[i]).selector_of(),
            ) by {
                if i < m1.gates@.len() {
                    assert(gates[i] == m1.gates@[i]);
                } else {
                    assert forall|j: int| 0 <= j < m0.gates@.len() implies (#[trigger] m0.gates@[j]).selector_of()
                        != gates[i].selector_of() by {
                        assert(m1.gates@[j] == m0.gates@[j]);
                    }
                }
            }
        }
        TornadoConfig { advice, instance, merkle_config, hash_config }
    }

    /// Assigns `left_value` and `right_value` on a fresh row and hashes them
    /// through the hash gate. Returns the output cell.
    pub fn compute_hash(
        &self,
        cs: &ConstraintSystem,
        layouter: &mut Layouter,
        left_value: Fe,
        right_value: Fe,
    ) -> (out: AssignedCell)
        requires
            self.config.wf(cs),
        ensures
            final(layouter).extends(old(layouter)),
            final(layouter).rows@.len() == old(layouter).rows@.len() + 2,
            final(layouter).holds(out),
            out.value@ == hash_spec(left_value@, right_value@),
            out.cell == (CellRef {
                row: (old(layouter).rows@.len() + 1) as usize,
                column: self.config.hash_config.advice@[2].index,
            }),
            holds_value(
                final(layouter).rows@,
                old(layouter).rows@.len() as int,
                self.config.advice@[0].index as int,
                left_value@,
            ),
            holds_value(
                final(layouter).rows@,
                old(layouter).rows@.len() as int,
                self.config.advice@[1].index as int,
                right_value@,
            ),
            selectors_exactly(final(layouter).rows@, old(layouter).rows@.len() as int, Set::empty()),
            self.config.hash_config.row_at(
                final(layouter).rows@,
                old(layouter).rows@.len() as int + 1,
                left_value@,
                right_value@,
                out.value@,
            ),
            final(layouter).copies@ == old(layouter).copies@ + self.config.hash_config.row_copies(
                old(layouter).rows@.len() as int + 1,
                CellRef {
                    row: old(layouter).rows@.len() as usize,
                    column: self.config.advice@[0].index,
                },
                CellRef {
                    row: old(layouter).rows@.len() as usize,
                    column: self.config.advice@[1].index,
                },
            ),
            old(layouter).consistent(cs.gates@) ==> final(layouter).consistent(cs.gates@),
            has_local_failure(cs.gates@, old(layouter).rows@) ==> has_local_failure(
                cs.gates@,
                final(layouter).rows@,
            ),
    {
        let a0 = self.config.advice[0].index;
        let a1 = self.config.advice[1].index;
        let mut row = Row::new(cs.num_advice, cs.num_selectors);
        row.assign(a0, left_value);
        row.assign(a1, right_value);
        let ghost old_rows = layouter.rows@;
        let ghost region = seq![row];
        let ghost gates = cs.gates@;
        proof {
            assert forall|i: int, r: int|
                0 <= i < gates.len() && 0 <= r < region.len() implies #[trigger] gate_holds_at(
                gates[i],
                region,
                r,
            ) by {
                assert(!enabled_at(region, r, gates[i].selector_of() as int));
            }
            lemma_append(gates, layouter.copies@, old_rows, region);
        }
        let vec_region = vec![row];
        proof {
            assert(vec_region@ == region);
        }
        let start = layouter.assign_region(vec_region);
        proof {
            crate::plonk::lemma_append_cells(old_rows, region);
            assert(cell_at(layouter.rows@, start as int, a0 as int) == cell_at(region, 0, a0 as int));
            assert(cell_at(layouter.rows@, start as int, a1 as int) == cell_at(region, 0, a1 as int));
            assert forall|s: int| #[trigger] enabled_at(layouter.rows@, start as int, s) == Set::<int>::empty().contains(s) by {
                assert(enabled_at(layouter.rows@, old_rows.len() as int + 0, s) == enabled_at(region, 0, s));
                assert(region[0] == row);
            }
        }
        let left = AssignedCell { cell: CellRef { row: start, column: a0 }, value: left_value };
        let right = AssignedCell { cell: CellRef { row: start, column: a1 }, value: right_value };
        let ghost mid = *layouter;
        let hash_chip = HashChip::construct(self.config.hash_config);
        let out = hash_chip.hash(cs, layouter, left, right);
        proof {
            assert(old(layouter).rows@.is_prefix_of(mid.rows@));
            assert(old(layouter).rows@.is_prefix_of(layouter.rows@));
            assert(old(layouter).copies@.is_prefix_of(layouter.copies@));
            crate::plonk::lemma_prefix_cells(mid.rows@, layouter.rows@);
            crate::plonk::lemma_prefix_selectors(mid.rows@, layouter.rows@, start as int, Set::empty());
        }
        out
    }
}

} // verus!
