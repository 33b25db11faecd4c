//! What the circuits guarantee, stated over the verdicts that their `verify`
//! functions promise.

use vstd::prelude::*;
use crate::circuits::{TornadoCircuit, commitment_spec, nullifier_hash_spec, path_verdict};
use crate::field::{Fe, modulus};
use crate::merkle_chip::{all_binary, bit_ok, fold_root, some_bit_fails};
use crate::hash_chip::hash_spec;
use crate::hash_chip::HashConfig;
use crate::plonk::{CellRef, Gate, Row, copies_hold, copy_holds, enabled_at, gate_holds_at, val, vanishes};
use vstd::arithmetic::div_mod::{
    lemma_fundamental_div_mod_converse_mod, lemma_small_mod, lemma_sub_mod_noop,
};

verus! {

/// Completeness: for any nullifier and secret and any path whose direction
/// bits are all 0 or 1, the mixer circuit accepts the nullifier hash
/// `H(nullifier, nullifier)` and the root reached by folding the commitment
/// `H(nullifier, secret)` through the path.
pub proof fn lemma_mixer_completeness(
    circuit: TornadoCircuit,
    instances: Seq<Vec<Fe>>,
    accepted: bool,
)
    requires
        circuit.path_elements@.len() == circuit.path_indices@.len(),
        all_binary(circuit.path_indices@),
        instances.len() > 0,
        instances[0]@.len() >= 2,
        instances[0]@[0]@ == nullifier_hash_spec(circuit.nullifier@),
        instances[0]@[1]@ == fold_root(
            commitment_spec(circuit.nullifier@, circuit.secret@),
            circuit.path_elements@,
            circuit.path_indices@,
        ),
        path_verdict(circuit.path_indices@, circuit.expected(instances), accepted),
    ensures
        accepted,
{
}

/// Soundness against altered public inputs: if the mixer circuit accepts
/// `instances`, then replacing either public value (the nullifier hash in
/// slot 0, the root in slot 1) by a different one, with the same witness, is
/// rejected.
pub proof fn lemma_mixer_rejects_altered_public_input(
    circuit: TornadoCircuit,
    instances: Seq<Vec<Fe>>,
    accepted: bool,
    altered: Seq<Vec<Fe>>,
    altered_accepted: bool,
    slot: int,
    value: Fe,
)
    requires
        path_verdict(circuit.path_indices@, circuit.expected(instances), accepted),
        path_verdict(circuit.path_indices@, circuit.expected(altered), altered_accepted),
        accepted,
        0 <= slot < 2,
        slot < instances[0]@.len(),
        value@ != instances[0]@[slot]@,
        altered.len() == instances.len(),
        altered[0]@ == instances[0]@.update(slot, value),
    ensures
        !altered_accepted,
{
    assert(altered[0]@[slot] == value);
    if slot == 0 {
        assert(altered[0]@[1] == instances[0]@[1]);
    } else {
        assert(altered[0]@[0] == instances[0]@[0]);
    }
}

/// A whole number from 2 up to 2^64 fails the boolean gate: `b * (1 - b)`
/// does not vanish modulo the field prime.
pub proof fn lemma_small_nonbinary_fails(b: int)
    requires
        2 <= b < 0x1_0000_0000_0000_0000,
    ensures
        !bit_ok(b),
{
    let x = b * (b - 1);
    assert(2 <= x < 0x1_0000_0000_0000_0000_0000_0000_0000_0000) by (nonlinear_arith)
        requires
            2 <= b < 0x1_0000_0000_0000_0000,
            x == b * (b - 1),
    ;
    assert(b * (1 - b) == -x) by (nonlinear_arith)
        requires
            x == b * (b - 1),
    ;
    lemma_fundamental_div_mod_converse_mod(-x, modulus(), -1, modulus() - x);
    assert(!vanishes(b * (1 - b)));
}

/// Bit validity: a direction bit whose value is a whole number from 2 up to
/// 2^64 makes a circuit with a Merkle path reject, whatever the other values.
pub proof fn lemma_nonbinary_bit_rejects(bits: Seq<Fe>, matches: bool, accepted: bool, k: int)
    requires
        path_verdict(bits, matches, accepted),
        0 <= k < bits.len(),
        2 <= bits[k]@ < 0x1_0000_0000_0000_0000,
    ensures
        !accepted,
{
    lemma_small_nonbinary_fails(bits[k]@);
    assert(some_bit_fails(bits));
}

/// Determinism of the outcome: two checks of the same witness against the
/// same public inputs agree, for every path whose bits are each 0, 1, or fail
/// the boolean gate (in a prime field, every path).
pub proof fn lemma_verdict_deterministic(
    bits: Seq<Fe>,
    matches: bool,
    first: bool,
    second: bool,
)
    requires
        path_verdict(bits, matches, first),
        path_verdict(bits, matches, second),
        forall|k: int|
            0 <= k < bits.len() ==> (#[trigger] bits[k]@ == 0 || bits[k]@ == 1 || !bit_ok(
                bits[k]@,
            )),
    ensures
        first == second,
{
    if !all_binary(bits) {
        let k = choose|k: int| 0 <= k < bits.len() && !(#[trigger] bits[k]@ == 0 || bits[k]@ == 1);
        assert(!bit_ok(bits[k]@));
        assert(some_bit_fails(bits));
    }
}

/// Two residues below the modulus are equal when their difference vanishes.
proof fn lemma_vanishing_difference(x: int, y: int)
    requires
        0 <= x < modulus(),
        0 <= y < modulus(),
        vanishes(x - y),
    ensures
        x == y,
{
    if x > y {
        lemma_small_mod((x - y) as nat, modulus() as nat);
    } else if x < y {
        lemma_fundamental_div_mod_converse_mod(x - y, modulus(), -1, modulus() + x - y);
    }
}

/// Values held in cells are residues below the modulus.
proof fn lemma_cell_in_range(rows: Seq<Row>, r: int, c: int)
    ensures
        0 <= val(rows, r, c) < modulus(),
{
    match crate::plonk::cell_at(rows, r, c) {
        Some(v) => Fe::lemma_in_range(v),
        None => {},
    }
}

/// The product gate pins its output: on a row where it is enabled and holds,
/// the output cell is the hash of the two input cells.
pub proof fn lemma_product_gate_forces_hash(g: Gate, rows: Seq<Row>, r: int)
    requires
        g is Product,
        enabled_at(rows, r, g.selector_of() as int),
        gate_holds_at(g, rows, r),
    ensures
        val(rows, r, g->Product_output as int) == hash_spec(
            val(rows, r, g->Product_left as int),
            val(rows, r, g->Product_right as int),
        ),
{
    let l = val(rows, r, g->Product_left as int);
    let rt = val(rows, r, g->Product_right as int);
    let o = val(rows, r, g->Product_output as int);
    lemma_cell_in_range(rows, r, g->Product_output as int);
    lemma_small_mod(o as nat, modulus() as nat);
    lemma_sub_mod_noop(l * rt, o, modulus());
    let h = (l * rt) % modulus();
    lemma_small_mod(h as nat, modulus() as nat);
    lemma_vanishing_difference(h, o);
}

/// The swap identities force the ordering: on a row where the swap gate is
/// enabled and holds and the bit is 0, the next row repeats (left, right);
/// when the bit is 1, it holds (right, left).
pub proof fn lemma_swap_gate_forces_order(g: Gate, rows: Seq<Row>, r: int)
    requires
        g is Swap,
        enabled_at(rows, r, g.selector_of() as int),
        gate_holds_at(g, rows, r),
        val(rows, r, g->Swap_bit as int) == 0 || val(rows, r, g->Swap_bit as int) == 1,
    ensures
        val(rows, r, g->Swap_bit as int) == 0 ==> val(rows, r + 1, g->Swap_left as int) == val(
            rows,
            r,
            g->Swap_left as int,
        ) && val(rows, r + 1, g->Swap_right as int) == val(rows, r, g->Swap_right as int),
        val(rows, r, g->Swap_bit as int) == 1 ==> val(rows, r + 1, g->Swap_left as int) == val(
            rows,
            r,
            g->Swap_right as int,
        ) && val(rows, r + 1, g->Swap_right as int) == val(rows, r, g->Swap_left as int),
{
    let l = val(rows, r, g->Swap_left as int);
    let rt = val(rows, r, g->Swap_right as int);
    let b = val(rows, r, g->Swap_bit as int);
    let l2 = val(rows, r + 1, g->Swap_left as int);
    let r2 = val(rows, r + 1, g->Swap_right as int);
    lemma_cell_in_range(rows, r, g->Swap_left as int);
    lemma_cell_in_range(rows, r, g->Swap_right as int);
    lemma_cell_in_range(rows, r + 1, g->Swap_left as int);
    lemma_cell_in_range(rows, r + 1, g->Swap_right as int);
    if b == 0 {
        assert((rt - l) * b + l - l2 == l - l2) by (nonlinear_arith)
            requires
                b == 0,
        ;
        assert((l - rt) * b + rt - r2 == rt - r2) by (nonlinear_arith)
            requires
                b == 0,
        ;
        lemma_vanishing_difference(l, l2);
        lemma_vanishing_difference(rt, r2);
    } else {
        assert((rt - l) * b + l - l2 == rt - l2) by (nonlinear_arith)
            requires
                b == 1,
        ;
        assert((l - rt) * b + rt - r2 == l - r2) by (nonlinear_arith)
            requires
                b == 1,
        ;
        lemma_vanishing_difference(rt, l2);
        lemma_vanishing_difference(l, r2);
    }
}

/// One nullifier feeds both hashes: in any grid whose copy constraints hold
/// and whose first four copies are the mixer's wiring from row 0, both inputs
/// of the nullifier-hash row and the left input of the commitment row equal
/// the nullifier cell, and the right input of the commitment row equals the
/// secret cell.
pub proof fn lemma_one_nullifier_feeds_both_hashes(
    h: HashConfig,
    rows: Seq<Row>,
    copies: Seq<(CellRef, CellRef)>,
    nullifier_cell: CellRef,
    secret_cell: CellRef,
)
    requires
        copies_hold(rows, copies),
        copies.len() >= 4,
        copies.subrange(0, 4) == h.row_copies(1, nullifier_cell, nullifier_cell) + h.row_copies(
            2,
            nullifier_cell,
            secret_cell,
        ),
    ensures
        ({
            let n = val(rows, nullifier_cell.row as int, nullifier_cell.column as int);
            let s = val(rows, secret_cell.row as int, secret_cell.column as int);
            &&& val(rows, 1, h.advice@[0].index as int) == n
            &&& val(rows, 1, h.advice@[1].index as int) == n
            &&& val(rows, 2, h.advice@[0].index as int) == n
            &&& val(rows, 2, h.advice@[1].index as int) == s
        }),
{
    assert(copies[0] == copies.subrange(0, 4)[0]);
    assert(copies[1] == copies.subrange(0, 4)[1]);
    assert(copies[2] == copies.subrange(0, 4)[2]);
    assert(copies[3] == copies.subrange(0, 4)[3]);
    assert(copy_holds(rows, copies[0].0, copies[0].1));
    assert(copy_holds(rows, copies[1].0, copies[1].1));
    assert(copy_holds(rows, copies[2].0, copies[2].1));
    assert(copy_holds(rows, copies[3].0, copies[3].1));
}

} // verus!
