//! Complete circuits: configuration, synthesis of one witness into a fresh
//! grid, and the check of that grid against public inputs.

use vstd::prelude::*;
use crate::field::Fe;
use crate::hash_chip::{HashChip, HashConfig, hash_spec};
use crate::tornado_chip::{TornadoChip, TornadoConfig};
use crate::merkle_chip::{MerkleChip, MerkleConfig, all_binary, fold_root, some_bit_fails};
use crate::plonk::{
    AdviceColumn, AssignedCell, CellRef, ConstraintSystem, Error, InstanceColumn, Layouter, Row,
    binding_holds, bindings_hold, bound_to, has_local_failure, is_satisfied,
    lemma_append_free_row, lemma_failure_breaks, lemma_prefix_cells, public_value, holds_value,
    selectors_exactly, lemma_prefix_selectors,
};

verus! {

/// What a check of a circuit with a Merkle path may return: acceptance only
/// when the public inputs are the expected ones (`matches`); exactly then when
/// every direction bit is 0 or 1; never when a bit fails the boolean gate.
pub open spec fn path_verdict(bits: Seq<Fe>, matches: bool, accepted: bool) -> bool {
    &&& accepted ==> matches
    &&& all_binary(bits) ==> (accepted == matches)
    &&& some_bit_fails(bits) ==> !accepted
}

/// Room for the columns and selectors that a circuit declares.
pub open spec fn has_room(meta: &ConstraintSystem) -> bool {
    &&& meta.wf()
    &&& meta.num_advice + 3 <= usize::MAX
    &&& meta.num_instance + 1 <= usize::MAX
    &&& meta.num_selectors + 4 <= usize::MAX
}

/// Declares three witness columns and one public column.
fn declare_columns(meta: &mut ConstraintSystem) -> (r: ([AdviceColumn; 3], InstanceColumn))
    requires
        has_room(old(meta)),
    ensures
        final(meta).wf(),
        final(meta).num_advice == old(meta).num_advice + 3,
        final(meta).num_instance == old(meta).num_instance + 1,
        final(meta).num_selectors == old(meta).num_selectors,
        final(meta).gates@ == old(meta).gates@,
        crate::hash_chip::advice_fits(r.0, final(meta).num_advice),
        r.1.index == old(meta).num_instance,
{
    let a = meta.advice_column();
    let b = meta.advice_column();
    let c = meta.advice_column();
    let instance = meta.instance_column();
    let advice = [a, b, c];
    proof {
        assert(advice@[0] == a && advice@[1] == b && advice@[2] == c);
    }
    (advice, instance)
}

/// Assigns `left` and `right` to the first two advice columns of a fresh
/// row with no selector enabled.
fn assign_pair(
    cs: &ConstraintSystem,
    advice: [AdviceColumn; 3],
    layouter: &mut Layouter,
    left: Fe,
    right: Fe,
) -> (r: (AssignedCell, AssignedCell))
    requires
        crate::hash_chip::advice_fits(advice, cs.num_advice),
    ensures
        final(layouter).extends(old(layouter)),
        final(layouter).holds(r.0),
        final(layouter).holds(r.1),
        r.0.value == left,
        r.1.value == right,
        r.0.cell == (CellRef { row: old(layouter).rows@.len() as usize, column: advice@[0].index }),
        r.1.cell == (CellRef { row: old(layouter).rows@.len() as usize, column: advice@[1].index }),
        final(layouter).rows@.len() == old(layouter).rows@.len() + 1,
        final(layouter).copies@ == old(layouter).copies@,
        selectors_exactly(final(layouter).rows@, old(layouter).rows@.len() as int, Set::empty()),
        old(layouter).consistent(cs.gates@) ==> final(layouter).consistent(cs.gates@),
        has_local_failure(cs.gates@, old(layouter).rows@) ==> has_local_failure(
            cs.gates@,
            final(layouter).rows@,
        ),
{
    let mut row = Row::new(cs.num_advice, cs.num_selectors);
    row.assign(advice[0].index, left);
    row.assign(advice[1].index, right);
    let ghost old_rows = layouter.rows@;
    proof {
        lemma_append_free_row(cs.gates@, layouter.copies@, old_rows, row);
    }
    let vec_region = vec![row];
    proof {
        assert(vec_region@ == seq![row]);
    }
    let start = layouter.assign_region(vec_region);
    proof {
        assert(old_rows.is_prefix_of(layouter.rows@));
        assert(old(layouter).copies@.is_prefix_of(layouter.copies@));
        crate::plonk::lemma_append_cells(old_rows, seq![row]);
        assert forall|s: int| #[trigger] crate::plonk::enabled_at(layouter.rows@, start as int, s)
            == Set::<int>::empty().contains(s) by {
            assert(crate::plonk::enabled_at(layouter.rows@, old_rows.len() as int + 0, s)
                == crate::plonk::enabled_at(seq![row], 0, s));
            assert(seq![row][0] == row);
        }
    }
    (
        AssignedCell { cell: CellRef { row: start, column: advice[0].index }, value: left },
        AssignedCell { cell: CellRef { row: start, column: advice[1].index }, value: right },
    )
}

/// Assigns `value` to the first advice column of a fresh row with no
/// selector enabled.
fn assign_one(
    cs: &ConstraintSystem,
    advice: [AdviceColumn; 3],
    layouter: &mut Layouter,
    value: Fe,
) -> (r: AssignedCell)
    requires
        crate::hash_chip::advice_fits(advice, cs.num_advice),
    ensures
        final(layouter).extends(old(layouter)),
        final(layouter).holds(r),
        r.value == value,
        old(layouter).consistent(cs.gates@) ==> final(layouter).consistent(cs.gates@),
        has_local_failure(cs.gates@, old(layouter).rows@) ==> has_local_failure(
            cs.gates@,
            final(layouter).rows@,
        ),
{
    let mut row = Row::new(cs.num_advice, cs.num_selectors);
    row.assign(advice[0].index, value);
    let ghost old_rows = layouter.rows@;
    proof {
        lemma_append_free_row(cs.gates@, layouter.copies@, old_rows, row);
    }
    let vec_region = vec![row];
    proof {
        assert(vec_region@ == seq![row]);
    }
    let start = layouter.assign_region(vec_region);
    proof {
        assert(old_rows.is_prefix_of(layouter.rows@));
        assert(old(layouter).copies@.is_prefix_of(layouter.copies@));
    }
    AssignedCell { cell: CellRef { row: start, column: advice[0].index }, value }
}

/// Whether the layouter has nothing allocated yet.
pub open spec fn is_fresh(layouter: &Layouter) -> bool {
    &&& layouter.rows@.len() == 0
    &&& layouter.copies@.len() == 0
    &&& layouter.bindings@.len() == 0
}

/// The hash circuit: public input 0 is the hash of the witnesses `a`, `b`.
#[derive(Clone, Copy, Debug)]
pub struct HashCircuit {
    pub a: Fe,
    pub b: Fe,
}

impl HashCircuit {
    pub fn configure(meta: &mut ConstraintSystem) -> (config: HashConfig)
        requires
            has_room(old(meta)),
        ensures
            final(meta).wf(),
            config.wf(final(meta)),
            config.instance.index == old(meta).num_instance,
    {
        let (advice, instance) = declare_columns(meta);
        HashChip::configure(meta, advice, instance)
    }

    /// Assigns `a` and `b`, hashes them and binds the output to public row 0.
    pub fn synthesize(&self, config: HashConfig, cs: &ConstraintSystem, layouter: &mut Layouter)
        requires
            config.wf(cs),
            old(layouter).consistent(cs.gates@),
            old(layouter).bindings@.len() == 0,
        ensures
            final(layouter).consistent(cs.gates@),
            final(layouter).bindings@.len() == 1,
            bound_to(
                final(layouter).rows@,
                final(layouter).bindings@[0],
                config.instance.index,
                0,
                hash_spec(self.a@, self.b@),
            ),
    {
        let (left, right) = assign_pair(cs, config.advice, layouter, self.a, self.b);
        let chip = HashChip::construct(config);
        let out = chip.hash(cs, layouter, left, right);
        layouter.constrain_instance(out.cell, config.instance, 0);
    }

    /// Synthesizes the circuit into a fresh grid and checks it against
    /// `instances`.
    pub fn verify(&self, instances: &Vec<Vec<Fe>>) -> (accepted: bool)
        ensures
            accepted == public_value(instances@, 0, hash_spec(self.a@, self.b@)),
    {
        let mut meta = ConstraintSystem::new();
        let config = Self::configure(&mut meta);
        let mut layouter = Layouter::new();
        self.synthesize(config, &meta, &mut layouter);
        let accepted = is_satisfied(&meta, &layouter, instances);
        proof {
            let b0 = layouter.bindings@[0];
            assert(bindings_hold(layouter.rows@, layouter.bindings@, instances@) == binding_holds(
                layouter.rows@,
                b0,
                instances@,
            ));
        }
        accepted
    }
}

/// The Merkle circuit: public row 0 is the leaf and public row 1 the root
/// reached through the path.
#[derive(Debug)]
pub struct MerkleCircuit {
    pub leaf: Fe,
    pub path_elements: Vec<Fe>,
    pub path_indices: Vec<Fe>,
}

impl MerkleCircuit {
    pub fn configure(meta: &mut ConstraintSystem) -> (config: MerkleConfig)
        requires
            has_room(old(meta)),
        ensures
            final(meta).wf(),
            config.wf(final(meta)),
            config.instance.index == old(meta).num_instance,
    {
        let (advice, instance) = declare_columns(meta);
        MerkleChip::configure(meta, advice, instance)
    }

    /// Assigns the leaf and binds it to public row 0, folds it through the
    /// path, and binds the root to public row 1. Paths of unequal length are
    /// refused before anything is assigned.
    pub fn synthesize(
        &self,
        config: &MerkleConfig,
        cs: &ConstraintSystem,
        layouter: &mut Layouter,
    ) -> (res: Result<(), Error>)
        requires
            config.wf(cs),
            is_fresh(old(layouter)),
        ensures
            self.path_elements@.len() != self.path_indices@.len() <==> res is Err,
            res is Err ==> res == Err::<(), Error>(Error::PathLengthMismatch) && is_fresh(
                final(layouter),
            ),
            res is Ok ==> {
                let rows = final(layouter).rows@;
                let bindings = final(layouter).bindings@;
                &&& bindings.len() == 2
                &&& bound_to(rows, bindings[0], config.instance.index, 0, self.leaf@)
                &&& bound_to(
                    rows,
                    bindings[1],
                    config.instance.index,
                    1,
                    fold_root(self.leaf@, self.path_elements@, self.path_indices@),
                )
                &&& all_binary(self.path_indices@) ==> final(layouter).consistent(cs.gates@)
                &&& some_bit_fails(self.path_indices@) ==> has_local_failure(cs.gates@, rows)
            },
    {
        if self.path_elements.len() != self.path_indices.len() {
            return Err(Error::PathLengthMismatch);
        }
        let leaf_cell = assign_one(cs, config.advice, layouter, self.leaf);
        layouter.constrain_instance(leaf_cell.cell, config.instance, 0);
        let ghost mid = *layouter;
        let chip = MerkleChip::construct(*config);
        let res = chip.prove_tree_root(
            cs,
            layouter,
            leaf_cell,
            &self.path_elements,
            &self.path_indices,
        );
        match res {
            Ok(root) => {
                proof {
                    lemma_prefix_cells(mid.rows@, layouter.rows@);
                }
                layouter.constrain_instance(root.cell, config.instance, 1);
                Ok(())
            },
            Err(e) => Err(e),
        }
    }

    /// Synthesizes the circuit into a fresh grid and checks it against
    /// `instances`.
    pub fn verify(&self, instances: &Vec<Vec<Fe>>) -> (res: Result<bool, Error>)
        ensures
            self.path_elements@.len() != self.path_indices@.len() <==> res is Err,
            res is Err ==> res == Err::<bool, Error>(Error::PathLengthMismatch),
            res matches Ok(accepted) ==> path_verdict(
                self.path_indices@,
                public_value(instances@, 0, self.leaf@) && public_value(
                    instances@,
                    1,
                    fold_root(self.leaf@, self.path_elements@, self.path_indices@),
                ),
                accepted,
            ),
    {
        let mut meta = ConstraintSystem::new();
        let config = Self::configure(&mut meta);
        let mut layouter = Layouter::new();
        match self.synthesize(&config, &meta, &mut layouter) {
            Ok(()) => {
                let accepted = is_satisfied(&meta, &layouter, instances);
                proof {
                    lemma_two_bindings(&layouter, instances@);
                    if some_bit_fails(self.path_indices@) {
                        lemma_failure_breaks(meta.gates@, layouter.rows@);
                    }
                }
                Ok(accepted)
            },
            Err(e) => Err(e),
        }
    }
}

/// The nullifier hash that the mixer circuit publishes.
pub open spec fn nullifier_hash_spec(nullifier: int) -> int {
    hash_spec(nullifier, nullifier)
}

/// The commitment, the leaf of the tree: the hash of nullifier and secret.
pub open spec fn commitment_spec(nullifier: int, secret: int) -> int {
    hash_spec(nullifier, secret)
}

/// The mixer circuit: public row 0 is the nullifier hash, public row 1 the
/// root reached from the commitment through the path.
#[derive(Debug)]
pub struct TornadoCircuit {
    pub nullifier: Fe,
    pub secret: Fe,
    pub path_elements: Vec<Fe>,
    pub path_indices: Vec<Fe>,
}

impl TornadoCircuit {
    /// The public inputs that the circuit is expected to accept.
    pub open spec fn expected(&self, instances: Seq<Vec<Fe>>) -> bool {
        &&& public_value(instances, 0, nullifier_hash_spec(self.nullifier@))
        &&& public_value(
            instances,
            1,
            fold_root(
                commitment_spec(self.nullifier@, self.secret@),
                self.path_elements@,
                self.path_indices@,
            ),
        )
    }

    /// Row 0 holds the nullifier and the secret with no selector on; row 1
    /// hashes the nullifier with itself and row 2 hashes nullifier and
    /// secret; the first four copy constraints feed both hash rows from the
    /// cells of row 0.
    pub open spec fn witness_rows(
        &self,
        config: &TornadoConfig,
        rows: Seq<Row>,
        copies: Seq<(CellRef, CellRef)>,
    ) -> bool {
        let h = config.hash_config;
        let nullifier_cell = CellRef { row: 0, column: config.advice@[0].index };
        let secret_cell = CellRef { row: 0, column: config.advice@[1].index };
        &&& holds_value(rows, 0, config.advice@[0].index as int, self.nullifier@)
        &&& holds_value(rows, 0, config.advice@[1].index as int, self.secret@)
        &&& selectors_exactly(rows, 0, Set::empty())
        &&& h.row_at(
            rows,
            1,
            self.nullifier@,
            self.nullifier@,
            nullifier_hash_spec(self.nullifier@),
        )
        &&& h.row_at(
            rows,
            2,
            self.nullifier@,
            self.secret@,
            commitment_spec(self.nullifier@, self.secret@),
        )
        &&& copies.len() >= 4
        &&& copies.subrange(0, 4) == h.row_copies(1, nullifier_cell, nullifier_cell) + h.row_copies(
            2,
            nullifier_cell,
            secret_cell,
        )
    }

    pub fn configure(meta: &mut ConstraintSystem) -> (config: TornadoConfig)
        requires
            has_room(old(meta)),
        ensures
            final(meta).wf(),
            config.wf(final(meta)),
            config.instance.index == old(meta).num_instance,
    {
        let (advice, instance) = declare_columns(meta);
        TornadoChip::configure(meta, advice, instance)
    }

    /// Assigns nullifier and secret once, on row 0. Hashes the nullifier cell
    /// with itself on row 1 and binds the result to public row 0; hashes the
    /// nullifier and secret cells into the commitment on row 2. Both hash rows
    /// take their inputs by copy constraints from row 0, so one nullifier
    /// feeds both hashes. Folds the commitment through the path from row 3
    /// and binds the root to public row 1. Paths of unequal length are
    /// refused before anything is assigned.
    pub fn synthesize(
        &self,
        config: &TornadoConfig,
        cs: &ConstraintSystem,
        layouter: &mut Layouter,
    ) -> (res: Result<(), Error>)
        requires
            config.wf(cs),
            is_fresh(old(layouter)),
        ensures
            self.path_elements@.len() != self.path_indices@.len() <==> res is Err,
            res is Err ==> res == Err::<(), Error>(Error::PathLengthMismatch) && is_fresh(
                final(layouter),
            ),
            res is Ok ==> {
                let rows = final(layouter).rows@;
                let bindings = final(layouter).bindings@;
                &&& bindings.len() == 2
                &&& bound_to(
                    rows,
                    bindings[0],
                    config.instance.index,
                    0,
                    nullifier_hash_spec(self.nullifier@),
                )
                &&& bound_to(
                    rows,
                    bindings[1],
                    config.instance.index,
                    1,
                    fold_root(
                        commitment_spec(self.nullifier@, self.secret@),
                        self.path_elements@,
                        self.path_indices@,
                    ),
                )
                &&& all_binary(self.path_indices@) ==> final(layouter).consistent(cs.gates@)
                &&& some_bit_fails(self.path_indices@) ==> has_local_failure(cs.gates@, rows)
                &&& self.witness_rows(config, rows, final(layouter).copies@)
                &&& bindings[0].cell == (CellRef {
                    row: 1,
                    column: config.hash_config.advice@[2].index,
                })
                &&& rows.len() == 3 + 3 * self.path_elements@.len()
                &&& forall|i: int|
                    0 <= i < self.path_elements@.len() ==> #[trigger] config.merkle_config.level_laid_out(
                        rows,
                        3,
                        commitment_spec(self.nullifier@, self.secret@),
                        self.path_elements@,
                        self.path_indices@,
                        i,
                    )
                &&& forall|i: int|
                    0 <= i < self.path_elements@.len() ==> #[trigger] config.merkle_config.level_wired(
                        final(layouter).copies@,
                        4,
                        3,
                        CellRef { row: 2, column: config.hash_config.advice@[2].index },
                        i,
                    )
            },
    {
        if self.path_elements.len() != self.path_indices.len() {
            return Err(Error::PathLengthMismatch);
        }
        let (nullifier_cell, secret_cell) = assign_pair(
            cs,
            config.advice,
            layouter,
            self.nullifier,
            self.secret,
        );
        let ghost after_pair = *layouter;
        let hash_chip = HashChip::construct(config.hash_config);
        let nullifier_hash_cell = hash_chip.hash(cs, layouter, nullifier_cell, nullifier_cell);
        layouter.constrain_instance(nullifier_hash_cell.cell, config.instance, 0);
        let ghost after_first = *layouter;
        proof {
            lemma_prefix_cells(after_pair.rows@, layouter.rows@);
        }
        let commitment_hash_cell = hash_chip.hash(cs, layouter, nullifier_cell, secret_cell);
        let ghost after_second = *layouter;
        let merkle_chip = MerkleChip::construct(config.merkle_config);
        let res = merkle_chip.prove_tree_root(
            cs,
            layouter,
            commitment_hash_cell,
            &self.path_elements,
            &self.path_indices,
        );
        match res {
            Ok(root) => {
                proof {
                    let h = config.hash_config;
                    let rows = layouter.rows@;
                    assert(after_first.rows@.is_prefix_of(rows));
                    assert(after_pair.rows@.is_prefix_of(rows));
                    lemma_prefix_cells(after_first.rows@, rows);
                    lemma_prefix_cells(after_pair.rows@, rows);
                    lemma_prefix_selectors(after_pair.rows@, rows, 0, Set::empty());
                    assert(crate::plonk::known(after_pair.rows@, 0, config.advice@[0].index as int));
                    assert(crate::plonk::known(after_pair.rows@, 0, config.advice@[1].index as int));
                    h.lemma_row_at_prefix(
                        after_first.rows@,
                        rows,
                        1,
                        self.nullifier@,
                        self.nullifier@,
                        nullifier_hash_cell.value@,
                    );
                    h.lemma_row_at_prefix(
                        after_second.rows@,
                        rows,
                        2,
                        self.nullifier@,
                        self.secret@,
                        commitment_hash_cell.value@,
                    );
                    assert(layouter.copies@.subrange(0, 4) =~= after_second.copies@);
                }
                layouter.constrain_instance(root.cell, config.instance, 1);
                Ok(())
            },
            Err(e) => Err(e),
        }
    }

    /// Synthesizes the circuit into a fresh grid and checks it against
    /// `instances`.
    pub fn verify(&self, instances: &Vec<Vec<Fe>>) -> (res: Result<bool, Error>)
        ensures
            self.path_elements@.len() != self.path_indices@.len() <==> res is Err,
            res is Err ==> res == Err::<bool, Error>(Error::PathLengthMismatch),
            res matches Ok(accepted) ==> path_verdict(
                self.path_indices@,
                self.expected(instances@),
                accepted,
            ),
    {
        let mut meta = ConstraintSystem::new();
        let config = Self::configure(&mut meta);
        let mut layouter = Layouter::new();
        match self.synthesize(&config, &meta, &mut layouter) {
            Ok(()) => {
                let accepted = is_satisfied(&meta, &layouter, instances);
                proof {
                    lemma_two_bindings(&layouter, instances@);
                    if some_bit_fails(self.path_indices@) {
                        lemma_failure_breaks(meta.gates@, layouter.rows@);
                    }
                }
                Ok(accepted)
            },
            Err(e) => Err(e),
        }
    }
}

/// With two bindings, all bindings hold exactly when both do.
proof fn lemma_two_bindings(layouter: &Layouter, instances: Seq<Vec<Fe>>)
    requires
        layouter.bindings@.len() == 2,
    ensures
        bindings_hold(layouter.rows@, layouter.bindings@, instances) == (binding_holds(
            layouter.rows@,
            layouter.bindings@[0],
            instances,
        ) && binding_holds(layouter.rows@, layouter.bindings@[1], instances)),
{
}

} // verus!
