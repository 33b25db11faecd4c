//! The Merkle step: a boolean-checked conditional swap of the running digest
//! and a sibling, followed by the hash gate; and the path prover that folds a
//! leaf through one step per tree level.

use vstd::prelude::*;
use crate::field::Fe;
use crate::hash_chip::{HashChip, HashConfig, advice_fits, hash_spec, lemma_sole_gate_extends};
use crate::plonk::{
    AdviceColumn, AssignedCell, CellRef, ConstraintSystem, Error, Gate, InstanceColumn, Layouter,
    Row, Selector, cell_at, copy_holds, enabled_at, gate_fits, gate_holds_at, has_local_failure,
    lemma_append, selector_unused, sole_gate, vanishes, holds_value, selectors_exactly,
    lemma_prefix_cells,
};

verus! {

/// The boolean gate's polynomial vanishes at `b`.
pub open spec fn bit_ok(b: int) -> bool {
    vanishes(b * (1 - b))
}

/// Every direction bit is exactly 0 or 1.
pub open spec fn all_binary(bits: Seq<Fe>) -> bool {
    forall|k: int| 0 <= k < bits.len() ==> (#[trigger] bits[k]@ == 0 || bits[k]@ == 1)
}

/// Some direction bit fails the boolean gate.
pub open spec fn some_bit_fails(bits: Seq<Fe>) -> bool {
    exists|k: int| 0 <= k < bits.len() && !bit_ok(#[trigger] bits[k]@)
}

/// The parent of `node` and `sibling`: `node` is the left child when `bit`
/// is zero and the right child otherwise.
pub open spec fn combine(node: int, sibling: int, bit: int) -> int {
    if bit == 0 {
        hash_spec(node, sibling)
    } else {
        hash_spec(sibling, node)
    }
}

/// The digest reached from `leaf` after one `combine` per level, from the
/// leaf upward.
pub open spec fn fold_root(leaf: int, siblings: Seq<Fe>, bits: Seq<Fe>) -> int
    decreases siblings.len(),
{
    if siblings.len() == 0 {
        leaf
    } else {
        combine(
            fold_root(leaf, siblings.drop_last(), bits.drop_last()),
            siblings.last()@,
            bits[siblings.len() - 1]@,
        )
    }
}

/// The left member of the pair hashed at one level.
pub open spec fn ordered_left(node: int, sibling: int, bit: int) -> int {
    if bit == 0 {
        node
    } else {
        sibling
    }
}

/// The right member of the pair hashed at one level.
pub open spec fn ordered_right(node: int, sibling: int, bit: int) -> int {
    if bit == 0 {
        sibling
    } else {
        node
    }
}

#[derive(Clone, Copy, Debug)]
pub struct MerkleConfig {
    pub advice: [AdviceColumn; 3],
    pub instance: InstanceColumn,
    pub swap_selector: Selector,
    pub swap_bit_bool_selector: Selector,
    pub hash_config: HashConfig,
}

impl MerkleConfig {
    /// `bit * (1 - bit) = 0` on the third advice column.
    pub open spec fn bool_gate(&self) -> Gate {
        Gate::Boolean { selector: self.swap_bit_bool_selector.index, bit: self.advice@[2].index }
    }

    /// The conditional swap of the first two advice columns into the next row.
    pub open spec fn swap_gate(&self) -> Gate {
        Gate::Swap {
            selector: self.swap_selector.index,
            left: self.advice@[0].index,
            right: self.advice@[1].index,
            bit: self.advice@[2].index,
        }
    }

    pub open spec fn wf(&self, cs: &ConstraintSystem) -> bool {
        &&& advice_fits(self.advice, cs.num_advice)
        &&& self.swap_selector.index < cs.num_selectors
        &&& self.swap_bit_bool_selector.index < cs.num_selectors
        &&& sole_gate(cs.gates@, self.bool_gate())
        &&& sole_gate(cs.gates@, self.swap_gate())
        &&& self.hash_config.wf(cs)
    }

    /// Rows `n`, `n + 1` and `n + 2` hold one tree level: `node`, `sibling`
    /// and `bit` with exactly the swap and boolean selectors on; then the
    /// pair ordered by the bit with no selector on; then the hash row of that
    /// pair.
    pub open spec fn layer_at(&self, rows: Seq<Row>, n: int, node: int, sibling: int, bit: int) -> bool {
        let a0 = self.advice@[0].index as int;
        let a1 = self.advice@[1].index as int;
        let a2 = self.advice@[2].index as int;
        let l = ordered_left(node, sibling, bit);
        let r = ordered_right(node, sibling, bit);
        &&& holds_value(rows, n, a0, node)
        &&& holds_value(rows, n, a1, sibling)
        &&& holds_value(rows, n, a2, bit)
        &&& selectors_exactly(
            rows,
            n,
            set![self.swap_selector.index as int, self.swap_bit_bool_selector.index as int],
        )
        &&& holds_value(rows, n + 1, a0, l)
        &&& holds_value(rows, n + 1, a1, r)
        &&& selectors_exactly(rows, n + 1, Set::empty())
        &&& self.hash_config.row_at(rows, n + 2, l, r, combine(node, sibling, bit))
    }

    /// The copy constraints of the level at row `n`: the running digest into
    /// row `n`, and the ordered pair of row `n + 1` into the hash row.
    pub open spec fn layer_copies(&self, n: int, node_cell: CellRef) -> Seq<(CellRef, CellRef)> {
        seq![(node_cell, CellRef { row: n as usize, column: self.advice@[0].index })]
            + self.hash_config.row_copies(
            n + 2,
            CellRef { row: (n + 1) as usize, column: self.advice@[0].index },
            CellRef { row: (n + 1) as usize, column: self.advice@[1].index },
        )
    }

    /// The cell that level `i` of a path laid out from row `start` takes as
    /// its running digest: the leaf for the first level, else the digest of
    /// the level below.
    pub open spec fn level_input(&self, leaf_cell: CellRef, start: int, i: int) -> CellRef {
        if i == 0 {
            leaf_cell
        } else {
            self.layer_output(start + 3 * (i - 1))
        }
    }

    /// Level `i` of the path from `leaf` is laid out at row `start + 3 * i`.
    pub open spec fn level_laid_out(
        &self,
        rows: Seq<Row>,
        start: int,
        leaf: int,
        siblings: Seq<Fe>,
        bits: Seq<Fe>,
        i: int,
    ) -> bool {
        self.layer_at(
            rows,
            start + 3 * i,
            fold_root(leaf, siblings.subrange(0, i), bits.subrange(0, i)),
            siblings[i]@,
            bits[i]@,
        )
    }

    /// The copy constraints of level `i` stand at `copy_start + 3 * i`.
    pub open spec fn level_wired(
        &self,
        copies: Seq<(CellRef, CellRef)>,
        copy_start: int,
        start: int,
        leaf_cell: CellRef,
        i: int,
    ) -> bool {
        copies.subrange(copy_start + 3 * i, copy_start + 3 * i + 3) == self.layer_copies(
            start + 3 * i,
            self.level_input(leaf_cell, start, i),
        )
    }

    /// The cell that holds the digest of the level at row `n`.
    pub open spec fn layer_output(&self, n: int) -> CellRef {
        CellRef { row: (n + 2) as usize, column: self.hash_config.advice@[2].index }
    }

    /// A laid-out level stays so when rows are appended.
    pub proof fn lemma_layer_at_prefix(
        &self,
        old: Seq<Row>,
        rows: Seq<Row>,
        n: int,
        node: int,
        sibling: int,
        bit: int,
    )
        requires
            old.is_prefix_of(rows),
            0 <= n,
            self.layer_at(old, n, node, sibling, bit),
        ensures
            self.layer_at(rows, n, node, sibling, bit),
    {
        lemma_prefix_cells(old, rows);
        assert(crate::plonk::known(old, n + 2, self.hash_config.advice@[0].index as int));
        assert forall|s: int| #[trigger] enabled_at(rows, n, s) == enabled_at(old, n, s) by {}
        assert forall|s: int| #[trigger] enabled_at(rows, n + 1, s) == enabled_at(old, n + 1, s) by {}
        assert forall|s: int| #[trigger] enabled_at(rows, n + 2, s) == enabled_at(old, n + 2, s) by {}
    }

    /// A configuration stays valid while the shape only grows.
    pub proof fn lemma_wf_extends(&self, old: &ConstraintSystem, cs: &ConstraintSystem)
        requires
            self.wf(old),
            cs.extends(old),
        ensures
            self.wf(cs),
    {
        lemma_sole_gate_extends(old, cs, self.bool_gate());
        lemma_sole_gate_extends(old, cs, self.swap_gate());
        self.hash_config.lemma_wf_extends(old, cs);
    }
}

pub struct MerkleChip {
    pub config: MerkleConfig,
}

impl MerkleChip {
    pub fn construct(config: MerkleConfig) -> (r: MerkleChip)
        ensures
            r.config == config,
    {
        MerkleChip { config }
    }

    /// Declares the boolean gate, the swap gate and a hash gate on `advice`.
    pub fn configure(
        meta: &mut ConstraintSystem,
        advice: [AdviceColumn; 3],
        instance: InstanceColumn,
    ) -> (config: MerkleConfig)
        requires
            old(meta).wf(),
            advice_fits(advice, old(meta).num_advice),
            old(meta).num_selectors + 3 <= usize::MAX,
        ensures
            final(meta).wf(),
            final(meta).extends(old(meta)),
            final(meta).num_advice == old(meta).num_advice,
            final(meta).num_instance == old(meta).num_instance,
            final(meta).num_selectors == old(meta).num_selectors + 3,
            final(meta).gates@ == old(meta).gates@.push(config.bool_gate()).push(
                config.swap_gate(),
            ).push(config.hash_config.gate()),
            config.wf(final(meta)),
            config.advice == advice,
            config.instance == instance,
            config.hash_config.advice == advice,
            config.hash_config.instance == instance,
            config.swap_selector.index == old(meta).num_selectors,
            config.swap_bit_bool_selector.index == old(meta).num_selectors + 1,
            config.hash_config.hash_selector.index == old(meta).num_selectors + 2,
    {
        let ghost m0 = *meta;
        let swap_selector = meta.selector();
        let swap_bit_bool_selector = meta.selector();
        let bool_gate = Gate::Boolean { selector: swap_bit_bool_selector.index, bit: advice[2].index };
        proof {
            assert forall|i: int| 0 <= i < meta.gates@.len() implies (#[trigger] meta.gates@[i]).selector_of()
                != bool_gate.selector_of() by {
                assert(gate_fits(m0.gates@[i], m0.num_advice, m0.num_selectors));
            }
        }
        meta.create_gate(bool_gate);
        let swap_gate = Gate::Swap {
            selector: swap_selector.index,
            left: advice[0].index,
            right: advice[1].index,
            bit: advice[2].index,
        };
        proof {
            assert forall|i: int| 0 <= i < meta.gates@.len() implies (#[trigger] meta.gates@[i]).selector_of()
                != swap_gate.selector_of() by {
                if i < m0.gates@.len() {
                    assert(gate_fits(m0.gates@[i], m0.num_advice, m0.num_selectors));
                } else {
                    assert(meta.gates@[i] == bool_gate);
                }
            }
        }
        meta.create_gate(swap_gate);
        let ghost m1 = *meta;
        proof {
            assert(m1.gates@ == m0.gates@.push(bool_gate).push(swap_gate));
            assert forall|i: int| 0 <= i < m1.gates@.len() implies gate_fits(
                #[trigger] m1.gates@[i],
                m1.num_advice,
                m1.num_selectors,
            ) by {
                if i < m0.gates@.len() {
                    assert(m1.gates@[i] == m0.gates@[i]);
                    assert(gate_fits(m0.gates@[i], m0.num_advice, m0.num_selectors));
                }
            }
        }
        let hash_config = HashChip::configure(meta, advice, instance);
        let config = MerkleConfig {
            advice,
            instance,
            swap_selector,
            swap_bit_bool_selector,
            hash_config,
        };
        proof {
            let gates = meta.gates@;
            let n0 = m0.gates@.len() as int;
            assert(gates == m0.gates@.push(bool_gate).push(swap_gate).push(hash_config.gate()));
            assert(gates[n0] == bool_gate);
            assert(gates[n0 + 1] == swap_gate);
            assert(gates.contains(bool_gate));
            assert(gates.contains(swap_gate));
            assert forall|i: int|
                0 <= i < gates.len() && (#[trigger] gates[i]).selector_of()
                    == bool_gate.selector_of() implies gates[i] == bool_gate by {
                if i < n0 {
                    assert(gate_fits(m0.gates@[i], m0.num_advice, m0.num_selectors));
                }
            }
            assert forall|i: int|
                0 <= i < gates.len() && (#[trigger] gates[i]).selector_of()
                    == swap_gate.selector_of() implies gates[i] == swap_gate by {
                if i < n0 {
                    assert(gate_fits(m0.gates@[i], m0.num_advice, m0.num_selectors));
                }
            }
            assert(m0.gates@.is_prefix_of(gates));
            assert forall|i: int| n0 <= i < gates.len() implies selector_unused(
                m0.gates@,
                (#[trigger] gates[i]).selector_of(),
            ) by {
                assert forall|j: int| 0 <= j < m0.gates@.len() implies (#[trigger] m0.gates@[j]).selector_of()
                    != gates[i].selector_of() by {
                    assert(gate_fits(m0.gates@[j], m0.num_advice, m0.num_selectors));
                }
            }
        }
        config
    }
}

impl MerkleChip {
    /// One tree level. Allocates two rows: the first holds a copy of
    /// `node_cell`, `neighbor` and `swap_bit` with the swap and boolean
    /// selectors on; the second holds the pair ordered by the bit. The pair
    /// is then hashed. Returns the parent digest cell.
    pub fn merkle_prove_layer(
        &self,
        cs: &ConstraintSystem,
        layouter: &mut Layouter,
        node_cell: &AssignedCell,
        neighbor: Fe,
        swap_bit: Fe,
    ) -> (out: AssignedCell)
        requires
            self.config.wf(cs),
            old(layouter).holds(*node_cell),
        ensures
            final(layouter).extends(old(layouter)),
            final(layouter).rows@.len() == old(layouter).rows@.len() + 3,
            final(layouter).holds(out),
            out.value@ == combine(node_cell.value@, neighbor@, swap_bit@),
            out.cell == self.config.layer_output(old(layouter).rows@.len() as int),
            self.config.layer_at(
                final(layouter).rows@,
                old(layouter).rows@.len() as int,
                node_cell.value@,
                neighbor@,
                swap_bit@,
            ),
            final(layouter).copies@ == old(layouter).copies@ + self.config.layer_copies(
                old(layouter).rows@.len() as int,
                node_cell.cell,
            ),
            final(layouter).bindings@ == old(layouter).bindings@,
            (swap_bit@ == 0 || swap_bit@ == 1) && old(layouter).consistent(cs.gates@)
                ==> final(layouter).consistent(cs.gates@),
            !bit_ok(swap_bit@) ==> has_local_failure(cs.gates@, final(layouter).rows@),
            has_local_failure(cs.gates@, old(layouter).rows@) ==> has_local_failure(
                cs.gates@,
                final(layouter).rows@,
            ),
    {
        let cfg = &self.config;
        let a0 = cfg.advice[0].index;
        let a1 = cfg.advice[1].index;
        let a2 = cfg.advice[2].index;
        let node = node_cell.value;
        let mut row0 = Row::new(cs.num_advice, cs.num_selectors);
        row0.enable(cfg.swap_selector.index);
        row0.enable(cfg.swap_bit_bool_selector.index);
        row0.assign(a0, node);
        row0.assign(a1, neighbor);
        row0.assign(a2, swap_bit);
        let (left, right) = if swap_bit.equals(&Fe::zero()) {
            (node, neighbor)
        } else {
            (neighbor, node)
        };
        let mut row1 = Row::new(cs.num_advice, cs.num_selectors);
        row1.assign(a0, left);
        row1.assign(a1, right);
        let ghost old_rows = layouter.rows@;
        let ghost region = seq![row0, row1];
        let ghost gates = cs.gates@;
        proof {
            let sg = cfg.swap_gate();
            let bg = cfg.bool_gate();
            assert(bg.selector_of() != sg.selector_of());
            assert(cell_at(region, 0, a0 as int) == Some(node));
            assert(cell_at(region, 0, a1 as int) == Some(neighbor));
            assert(cell_at(region, 0, a2 as int) == Some(swap_bit));
            assert(cell_at(region, 1, a0 as int) == Some(left));
            assert(cell_at(region, 1, a1 as int) == Some(right));
            if swap_bit@ == 0 || swap_bit@ == 1 {
                assert forall|i: int, r: int|
                    0 <= i < gates.len() && 0 <= r < region.len() implies #[trigger] gate_holds_at(
                    gates[i],
                    region,
                    r,
                ) by {
                    if enabled_at(region, r, gates[i].selector_of() as int) {
                        assert(r == 0);
                        if gates[i].selector_of() == cfg.swap_selector.index {
                            assert(gates[i] == sg);
                            let l = node@;
                            let rt = neighbor@;
                            let b = swap_bit@;
                            if b == 0 {
                                assert((rt - l) * b + l - left@ == 0) by (nonlinear_arith)
                                    requires b == 0, left@ == l;
                                assert((l - rt) * b + rt - right@ == 0) by (nonlinear_arith)
                                    requires b == 0, right@ == rt;
                            } else {
                                assert((rt - l) * b + l - left@ == 0) by (nonlinear_arith)
                                    requires b == 1, left@ == rt;
                                assert((l - rt) * b + rt - right@ == 0) by (nonlinear_arith)
                                    requires b == 1, right@ == l;
                            }
                            assert(gate_holds_at(gates[i], region, r));
                        } else {
                            assert(gates[i].selector_of() == cfg.swap_bit_bool_selector.index);
                            assert(gates[i] == bg);
                            let b = swap_bit@;
                            assert(b * (1 - b) == 0) by (nonlinear_arith)
                                requires b == 0 || b == 1;
                        }
                    }
                }
            }
            lemma_append(gates, layouter.copies@, old_rows, region);
        }
        let mut vec_region: Vec<Row> = Vec::new();
        vec_region.push(row0);
        vec_region.push(row1);
        proof {
            assert(vec_region@ == region);
        }
        let start = layouter.assign_region(vec_region);
        let rows_len = layouter.rows.len();
        let ghost mid = layouter.rows@;
        proof {
            assert(mid == old_rows + region);
            crate::plonk::lemma_append_cells(old_rows, region);
            assert(cell_at(mid, start as int, a0 as int) == cell_at(region, 0, a0 as int));
            assert(cell_at(mid, start as int + 1, a0 as int) == cell_at(region, 1, a0 as int));
            assert(cell_at(mid, start as int + 1, a1 as int) == cell_at(region, 1, a1 as int));
            assert(cell_at(mid, start as int, a1 as int) == cell_at(region, 0, a1 as int));
            assert(cell_at(mid, start as int, a2 as int) == cell_at(region, 0, a2 as int));
            assert forall|s: int| #[trigger] enabled_at(mid, start as int, s) == set![
                cfg.swap_selector.index as int,
                cfg.swap_bit_bool_selector.index as int,
            ].contains(s) by {
                assert(enabled_at(mid, old_rows.len() as int + 0, s) == enabled_at(region, 0, s));
                assert(region[0] == row0);
            }
            assert forall|s: int| #[trigger] enabled_at(mid, start as int + 1, s) == Set::<int>::empty().contains(s) by {
                assert(enabled_at(mid, old_rows.len() as int + 1, s) == enabled_at(region, 1, s));
                assert(region[1] == row1);
            }
            if !bit_ok(swap_bit@) {
                let bg = cfg.bool_gate();
                let k = choose|k: int| 0 <= k < gates.len() && gates[k] == bg;
                assert(enabled_at(region, 0, bg.selector_of() as int));
                assert(!gate_holds_at(bg, region, 0));
                crate::plonk::lemma_append_gate_shift(bg, old_rows, region, 0);
                assert(!gate_holds_at(gates[k], mid, start as int));
                assert(has_local_failure(gates, mid));
            }
        }
        layouter.copy(node_cell.cell, CellRef { row: start, column: a0 });
        proof {
            let rows = layouter.rows@;
            let copies = layouter.copies@;
            if old(layouter).consistent(gates) {
                assert forall|k: int| 0 <= k < copies.len() implies copy_holds(
                    rows,
                    #[trigger] copies[k].0,
                    copies[k].1,
                ) by {
                    if k < old(layouter).copies@.len() {
                        assert(copies[k] == old(layouter).copies@[k]);
                    }
                }
            }
        }
        let left_cell = AssignedCell { cell: CellRef { row: start + 1, column: a0 }, value: left };
        let right_cell = AssignedCell { cell: CellRef { row: start + 1, column: a1 }, value: right };
        let ghost before_hash = *layouter;
        let hash_chip = HashChip::construct(cfg.hash_config);
        let out = hash_chip.hash(cs, layouter, left_cell, right_cell);
        proof {
            assert(old(layouter).rows@.is_prefix_of(before_hash.rows@));
            assert(old(layouter).rows@.is_prefix_of(layouter.rows@));
            assert(old(layouter).copies@.is_prefix_of(layouter.copies@));
            lemma_prefix_cells(before_hash.rows@, layouter.rows@);
            assert(layouter.copies@ == old(layouter).copies@ + cfg.layer_copies(
                start as int,
                node_cell.cell,
            ));
            if swap_bit@ == 0 {
                assert(out.value@ == hash_spec(node@, neighbor@));
            } else {
                assert(out.value@ == hash_spec(neighbor@, node@));
            }
        }
        out
    }

    /// Folds `leaf` through one `merkle_prove_layer` per level, pairing
    /// `path_elements[i]` with `path_indices[i]`, and returns the root cell.
    /// Sequences of unequal length are refused before any row is allocated.
    pub fn prove_tree_root(
        &self,
        cs: &ConstraintSystem,
        layouter: &mut Layouter,
        leaf: AssignedCell,
        path_elements: &Vec<Fe>,
        path_indices: &Vec<Fe>,
    ) -> (res: Result<AssignedCell, Error>)
        requires
            self.config.wf(cs),
            old(layouter).holds(leaf),
        ensures
            path_elements@.len() != path_indices@.len() <==> res is Err,
            res is Err ==> res == Err::<AssignedCell, Error>(Error::PathLengthMismatch)
                && final(layouter).rows@ == old(layouter).rows@ && final(layouter).copies@ == old(
                layouter,
            ).copies@ && final(layouter).bindings@ == old(layouter).bindings@,
            res matches Ok(root) ==> {
                &&& final(layouter).extends(old(layouter))
                &&& final(layouter).holds(root)
                &&& root.value@ == fold_root(leaf.value@, path_elements@, path_indices@)
                &&& final(layouter).rows@.len() == old(layouter).rows@.len() + 3
                    * path_elements@.len()
                &&& final(layouter).copies@.len() == old(layouter).copies@.len() + 3
                    * path_elements@.len()
                &&& path_elements@.len() == 0 ==> root == leaf
                &&& path_elements@.len() > 0 ==> root.cell == self.config.layer_output(
                    old(layouter).rows@.len() + 3 * (path_elements@.len() - 1),
                )
                &&& forall|i: int|
                    0 <= i < path_elements@.len() ==> #[trigger] self.config.level_laid_out(
                        final(layouter).rows@,
                        old(layouter).rows@.len() as int,
                        leaf.value@,
                        path_elements@,
                        path_indices@,
                        i,
                    )
                &&& forall|i: int|
                    0 <= i < path_elements@.len() ==> #[trigger] self.config.level_wired(
                        final(layouter).copies@,
                        old(layouter).copies@.len() as int,
                        old(layouter).rows@.len() as int,
                        leaf.cell,
                        i,
                    )
                &&& all_binary(path_indices@) && old(layouter).consistent(cs.gates@)
                    ==> final(layouter).consistent(cs.gates@)
                &&& some_bit_fails(path_indices@) ==> has_local_failure(
                    cs.gates@,
                    final(layouter).rows@,
                )
                &&& has_local_failure(cs.gates@, old(layouter).rows@) ==> has_local_failure(
                    cs.gates@,
                    final(layouter).rows@,
                )
            },
    {
        if path_elements.len() != path_indices.len() {
            return Err(Error::PathLengthMismatch);
        }
        let ghost gates = cs.gates@;
        let ghost start = *layouter;
        let mut digest = leaf;
        let mut i: usize = 0;
        while i < path_elements.len()
            invariant
                self.config.wf(cs),
                gates == cs.gates@,
                i <= path_elements@.len(),
                path_elements@.len() == path_indices@.len(),
                layouter.extends(&start),
                layouter.holds(digest),
                layouter.rows@.len() == start.rows@.len() + 3 * i,
                layouter.copies@.len() == start.copies@.len() + 3 * i,
                i == 0 ==> digest == leaf,
                digest.cell == self.config.level_input(leaf.cell, start.rows@.len() as int, i as int),
                forall|k: int|
                    0 <= k < i ==> #[trigger] self.config.level_laid_out(
                        layouter.rows@,
                        start.rows@.len() as int,
                        leaf.value@,
                        path_elements@,
                        path_indices@,
                        k,
                    ),
                forall|k: int|
                    0 <= k < i ==> #[trigger] self.config.level_wired(
                        layouter.copies@,
                        start.copies@.len() as int,
                        start.rows@.len() as int,
                        leaf.cell,
                        k,
                    ),
                digest.value@ == fold_root(
                    leaf.value@,
                    path_elements@.subrange(0, i as int),
                    path_indices@.subrange(0, i as int),
                ),
                all_binary(path_indices@) && start.consistent(gates) ==> layouter.consistent(
                    gates,
                ),
                (exists|k: int| 0 <= k < i && !bit_ok(#[trigger] path_indices@[k]@))
                    ==> has_local_failure(gates, layouter.rows@),
                has_local_failure(gates, start.rows@) ==> has_local_failure(gates, layouter.rows@),
            decreases path_elements@.len() - i,
        {
            let ghost before = *layouter;
            let ghost prev = digest;
            digest = self.merkle_prove_layer(cs, layouter, &digest, path_elements[i], path_indices[i]);
            proof {
                let es = path_elements@.subrange(0, i + 1);
                let bs = path_indices@.subrange(0, i + 1);
                assert(es.drop_last() == path_elements@.subrange(0, i as int));
                assert(bs.drop_last() == path_indices@.subrange(0, i as int));
                assert(es.last() == path_elements@[i as int]);
                assert(bs[es.len() - 1] == path_indices@[i as int]);
                assert(start.rows@.is_prefix_of(layouter.rows@));
                assert(start.copies@.is_prefix_of(layouter.copies@));
                let n0 = start.rows@.len() as int;
                let c0 = start.copies@.len() as int;
                lemma_prefix_cells(before.rows@, layouter.rows@);
                assert forall|k: int| 0 <= k < i + 1 implies #[trigger] self.config.level_laid_out(
                    layouter.rows@,
                    n0,
                    leaf.value@,
                    path_elements@,
                    path_indices@,
                    k,
                ) by {
                    if k < i {
                        assert(self.config.level_laid_out(
                            before.rows@,
                            n0,
                            leaf.value@,
                            path_elements@,
                            path_indices@,
                            k,
                        ));
                        self.config.lemma_layer_at_prefix(
                            before.rows@,
                            layouter.rows@,
                            n0 + 3 * k,
                            fold_root(
                                leaf.value@,
                                path_elements@.subrange(0, k),
                                path_indices@.subrange(0, k),
                            ),
                            path_elements@[k]@,
                            path_indices@[k]@,
                        );
                    }
                }
                assert forall|k: int| 0 <= k < i + 1 implies #[trigger] self.config.level_wired(
                    layouter.copies@,
                    c0,
                    n0,
                    leaf.cell,
                    k,
                ) by {
                    if k < i {
                        assert(self.config.level_wired(before.copies@, c0, n0, leaf.cell, k));
                        assert(layouter.copies@.subrange(c0 + 3 * k, c0 + 3 * k + 3)
                            =~= before.copies@.subrange(c0 + 3 * k, c0 + 3 * k + 3));
                    } else {
                        assert(layouter.copies@.subrange(c0 + 3 * k, c0 + 3 * k + 3)
                            =~= self.config.layer_copies(n0 + 3 * k, prev.cell));
                    }
                }
                if all_binary(path_indices@) {
                    assert(path_indices@[i as int]@ == 0 || path_indices@[i as int]@ == 1);
                }
                if exists|k: int| 0 <= k < i + 1 && !bit_ok(#[trigger] path_indices@[k]@) {
                    let k = choose|k: int| 0 <= k < i + 1 && !bit_ok(#[trigger] path_indices@[k]@);
                    if k < i {
                        assert(has_local_failure(gates, before.rows@));
                    }
                }
            }
            i = i + 1;
        }
        proof {
            assert(path_elements@.subrange(0, i as int) == path_elements@);
            assert(path_indices@.subrange(0, i as int) == path_indices@);
        }
        Ok(digest)
    }
}

} // verus!
