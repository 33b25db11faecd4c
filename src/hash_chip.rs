//! The hash gate: one row holding copies of two input cells and their
//! product, checked by `s * (left * right - output) = 0`. Multiplication is a
//! placeholder for a circuit-friendly hash.

use vstd::prelude::*;
use crate::field::{Fe, modulus};
use crate::plonk::{
    AdviceColumn, AssignedCell, CellRef, ConstraintSystem, Gate, InstanceColumn, Layouter, Row,
    Selector, enabled_at, gate_holds_at, copy_holds, holds_value, selectors_exactly, Row as GridRow,
    has_local_failure, lemma_append, sole_gate, selector_unused,
};
use vstd::arithmetic::div_mod::{lemma_small_mod, lemma_sub_mod_noop};

verus! {

/// The placeholder hash of two field values.
pub open spec fn hash_spec(left: int, right: int) -> int {
    (left * right) % modulus()
}

/// Three distinct declared witness columns.
pub open spec fn advice_fits(advice: [AdviceColumn; 3], num_advice: usize) -> bool {
    &&& advice@[0].index < num_advice
    &&& advice@[1].index < num_advice
    &&& advice@[2].index < num_advice
    &&& advice@[0].index != advice@[1].index
    &&& advice@[0].index != advice@[2].index
    &&& advice@[1].index != advice@[2].index
}

#[derive(Clone, Copy, Debug)]
pub struct HashConfig {
    pub advice: [AdviceColumn; 3],
    pub instance: InstanceColumn,
    pub hash_selector: Selector,
}

impl HashConfig {
    /// The product gate over the three advice columns.
    pub open spec fn gate(&self) -> Gate {
        Gate::Product {
            selector: self.hash_selector.index,
            left: self.advice@[0].index,
            right: self.advice@[1].index,
            output: self.advice@[2].index,
        }
    }

    /// The configuration belongs to `cs`: its columns are declared and its
    /// selector switches on its product gate alone.
    pub open spec fn wf(&self, cs: &ConstraintSystem) -> bool {
        &&& advice_fits(self.advice, cs.num_advice)
        &&& self.hash_selector.index < cs.num_selectors
        &&& sole_gate(cs.gates@, self.gate())
    }

    /// Row `r` is a hash row: `left`, `right` and `out` in the three advice
    /// columns, and the hash selector the only one enabled.
    pub open spec fn row_at(&self, rows: Seq<GridRow>, r: int, left: int, right: int, out: int) -> bool {
        &&& holds_value(rows, r, self.advice@[0].index as int, left)
        &&& holds_value(rows, r, self.advice@[1].index as int, right)
        &&& holds_value(rows, r, self.advice@[2].index as int, out)
        &&& selectors_exactly(rows, r, set![self.hash_selector.index as int])
    }

    /// A hash row stays so when rows are appended.
    pub proof fn lemma_row_at_prefix(
        &self,
        old: Seq<GridRow>,
        rows: Seq<GridRow>,
        r: int,
        left: int,
        right: int,
        out: int,
    )
        requires
            old.is_prefix_of(rows),
            0 <= r,
            self.row_at(old, r, left, right, out),
        ensures
            self.row_at(rows, r, left, right, out),
    {
        crate::plonk::lemma_prefix_cells(old, rows);
        assert(crate::plonk::known(old, r, self.advice@[0].index as int));
        crate::plonk::lemma_prefix_selectors(old, rows, r, set![self.hash_selector.index as int]);
    }

    /// The copy constraints that tie `left` and `right` into the hash row `r`.
    pub open spec fn row_copies(&self, r: int, left: CellRef, right: CellRef) -> Seq<(CellRef, CellRef)> {
        seq![
            (left, CellRef { row: r as usize, column: self.advice@[0].index }),
            (right, CellRef { row: r as usize, column: self.advice@[1].index }),
        ]
    }

    /// A configuration stays valid while the shape only grows.
    pub proof fn lemma_wf_extends(&self, old: &ConstraintSystem, cs: &ConstraintSystem)
        requires
            self.wf(old),
            cs.extends(old),
        ensures
            self.wf(cs),
    {
        lemma_sole_gate_extends(old, cs, self.gate());
    }
}

/// A gate that was the only one of its selector stays so when gates with
/// fresh selectors are added.
pub proof fn lemma_sole_gate_extends(old: &ConstraintSystem, cs: &ConstraintSystem, g: Gate)
    requires
        sole_gate(old.gates@, g),
        cs.extends(old),
    ensures
        sole_gate(cs.gates@, g),
{
    let k = choose|k: int| 0 <= k < old.gates@.len() && old.gates@[k] == g;
    assert(cs.gates@[k] == g);
    assert forall|i: int|
        0 <= i < cs.gates@.len() && (#[trigger] cs.gates@[i]).selector_of()
            == g.selector_of() implies cs.gates@[i] == g by {
        if i >= old.gates@.len() {
            assert(selector_unused(old.gates@, cs.gates@[i].selector_of()));
            assert(old.gates@[k].selector_of() != cs.gates@[i].selector_of());
        } else {
            assert(old.gates@[i] == cs.gates@[i]);
        }
    }
}

pub struct HashChip {
    pub config: HashConfig,
}

impl HashChip {
    pub fn construct(config: HashConfig) -> (r: HashChip)
        ensures
            r.config == config,
    {
        HashChip { config }
    }

    /// Declares a fresh selector and the product gate on `advice`.
    pub fn configure(
        meta: &mut ConstraintSystem,
        advice: [AdviceColumn; 3],
        instance: InstanceColumn,
    ) -> (config: HashConfig)
        requires
            old(meta).wf(),
            advice_fits(advice, old(meta).num_advice),
            old(meta).num_selectors < usize::MAX,
        ensures
            final(meta).wf(),
            final(meta).extends(old(meta)),
            final(meta).gates@ == old(meta).gates@.push(config.gate()),
            final(meta).num_advice == old(meta).num_advice,
            final(meta).num_instance == old(meta).num_instance,
            final(meta).num_selectors == old(meta).num_selectors + 1,
            config.wf(final(meta)),
            config.advice == advice,
            config.instance == instance,
            config.hash_selector.index == old(meta).num_selectors,
    {
        let hash_selector = meta.selector();
        let gate = Gate::Product {
            selector: hash_selector.index,
            left: advice[0].index,
            right: advice[1].index,
            output: advice[2].index,
        };
        proof {
            assert forall|i: int| 0 <= i < meta.gates@.len() implies (#[trigger] meta.gates@[i]).selector_of()
                != gate.selector_of() by {
                assert(crate::plonk::gate_fits(meta.gates@[i], meta.num_advice, (meta.num_selectors - 1) as usize));
            }
        }
        meta.create_gate(gate);
        let config = HashConfig { advice, instance, hash_selector };
        proof {
            assert(meta.gates@[meta.gates@.len() - 1] == gate);
            assert(sole_gate(meta.gates@, config.gate()));
            assert(old(meta).gates@.is_prefix_of(meta.gates@));
        }
        config
    }

    /// Allocates one row, copies `left_cell` and `right_cell` into its first
    /// two columns, assigns their product to the third and enables the hash
    /// selector. Returns the output cell.
    pub fn hash(
        &self,
        cs: &ConstraintSystem,
        layouter: &mut Layouter,
        left_cell: AssignedCell,
        right_cell: AssignedCell,
    ) -> (out: AssignedCell)
        requires
            self.config.wf(cs),
            old(layouter).holds(left_cell),
            old(layouter).holds(right_cell),
        ensures
            final(layouter).extends(old(layouter)),
            final(layouter).rows@.len() == old(layouter).rows@.len() + 1,
            final(layouter).holds(out),
            out.cell == (CellRef {
                row: old(layouter).rows@.len() as usize,
                column: self.config.advice@[2].index,
            }),
            out.value@ == hash_spec(left_cell.value@, right_cell.value@),
            final(layouter).copies@ == old(layouter).copies@ + self.config.row_copies(
                old(layouter).rows@.len() as int,
                left_cell.cell,
                right_cell.cell,
            ),
            self.config.row_at(
                final(layouter).rows@,
                old(layouter).rows@.len() as int,
                left_cell.value@,
                right_cell.value@,
                out.value@,
            ),
            old(layouter).consistent(cs.gates@) ==> final(layouter).consistent(cs.gates@),
            has_local_failure(cs.gates@, old(layouter).rows@) ==> has_local_failure(
                cs.gates@,
                final(layouter).rows@,
            ),
    {
        let cfg = &self.config;
        let a0 = cfg.advice[0].index;
        let a1 = cfg.advice[1].index;
        let a2 = cfg.advice[2].index;
        let out_value = left_cell.value.mul(&right_cell.value);
        let mut row = Row::new(cs.num_advice, cs.num_selectors);
        row.enable(cfg.hash_selector.index);
        row.assign(a0, left_cell.value);
        row.assign(a1, right_cell.value);
        row.assign(a2, out_value);
        let ghost old_rows = layouter.rows@;
        let ghost region = seq![row];
        proof {
            let g = cfg.gate();
            Fe::lemma_in_range(out_value);
            lemma_small_mod(out_value@ as nat, modulus() as nat);
            lemma_sub_mod_noop(
                left_cell.value@ * right_cell.value@,
                out_value@,
                modulus(),
            );
            assert forall|i: int, r: int|
                0 <= i < cs.gates@.len() && 0 <= r < region.len() implies #[trigger] gate_holds_at(
                cs.gates@[i],
                region,
                r,
            ) by {
                assert(region[r] == row);
                if enabled_at(region, r, cs.gates@[i].selector_of() as int) {
                    assert(cs.gates@[i].selector_of() == cfg.hash_selector.index);
                    assert(cs.gates@[i] == g);
                }
            }
            lemma_append(cs.gates@, layouter.copies@, old_rows, region);
        }
        let vec_region = vec![row];
        proof {
            assert(vec_region@ == region);
        }
        let start = layouter.assign_region(vec_region);
        let left_copy = CellRef { row: start, column: a0 };
        let right_copy = CellRef { row: start, column: a1 };
        proof {
            assert(layouter.rows@[start as int] == row);
            crate::plonk::lemma_append_cells(old_rows, region);
            assert forall|s: int| #[trigger] enabled_at(layouter.rows@, start as int, s)
                == set![cfg.hash_selector.index as int].contains(s) by {
                assert(enabled_at(layouter.rows@, old_rows.len() as int + 0, s) == enabled_at(region, 0, s));
            }
        }
        layouter.copy(left_cell.cell, left_copy);
        layouter.copy(right_cell.cell, right_copy);
        proof {
            let rows = layouter.rows@;
            let copies = layouter.copies@;
            if old(layouter).consistent(cs.gates@) {
                assert forall|k: int| 0 <= k < copies.len() implies copy_holds(
                    rows,
                    #[trigger] copies[k].0,
                    copies[k].1,
                ) by {
                    if k < old(layouter).copies@.len() {
                        assert(copies[k] == old(layouter).copies@[k]);
                    }
                }
            }
            assert(old(layouter).rows@.is_prefix_of(rows));
            assert(old(layouter).copies@.is_prefix_of(copies));
            assert(copies == old(layouter).copies@ + cfg.row_copies(start as int, left_cell.cell, right_cell.cell));
        }
        AssignedCell { cell: CellRef { row: start, column: a2 }, value: out_value }
    }
}

} // verus!
