//! The constraint grid: columns and selectors declared once per circuit shape,
//! gates over (column, row offset) references, rows allocated monotonically
//! and assigned once, copy constraints between cells, and bindings of cells
//! to public inputs. `is_satisfied` checks a full assignment.

use vstd::prelude::*;
use crate::field::{Fe, modulus};
use vstd::arithmetic::div_mod::{
    lemma_add_mod_noop, lemma_mul_mod_noop_left, lemma_mul_mod_noop_right, lemma_small_mod,
    lemma_sub_mod_noop,
};

verus! {

/// A configuration-time error: the witness cannot be laid out.
#[derive(Clone, Copy, Debug, PartialEq, Eq, Structural)]
pub enum Error {
    /// The sibling and direction-bit sequences of a Merkle path differ in length.
    PathLengthMismatch,
}

/// A witness column.
#[derive(Clone, Copy, Debug, PartialEq, Eq, Structural)]
pub struct AdviceColumn {
    pub index: usize,
}

/// A public-input column.
#[derive(Clone, Copy, Debug, PartialEq, Eq, Structural)]
pub struct InstanceColumn {
    pub index: usize,
}

/// A per-row boolean flag that switches one gate on.
#[derive(Clone, Copy, Debug, PartialEq, Eq, Structural)]
pub struct Selector {
    pub index: usize,
}

/// A polynomial identity, active on the rows where its selector is enabled.
/// Column fields are advice column indices.
#[derive(Clone, Copy, Debug, PartialEq, Eq, Structural)]
pub enum Gate {
    /// `s * (left * right - output) = 0` on the current row.
    Product { selector: usize, left: usize, right: usize, output: usize },
    /// `s * bit * (1 - bit) = 0` on the current row.
    Boolean { selector: usize, bit: usize },
    /// `s * ((right - left) * bit + left - left') = 0` and
    /// `s * ((left - right) * bit + right - right') = 0`, where `left`,
    /// `right` and `bit` are on the current row and `left'`, `right'` are in
    /// the same columns on the next row.
    Swap { selector: usize, left: usize, right: usize, bit: usize },
}

impl Gate {
    pub open spec fn selector_of(self) -> usize {
        match self {
            Gate::Product { selector, .. } => selector,
            Gate::Boolean { selector, .. } => selector,
            Gate::Swap { selector, .. } => selector,
        }
    }

    pub fn selector(&self) -> (r: usize)
        ensures
            r == self.selector_of(),
    {
        match self {
            Gate::Product { selector, .. } => *selector,
            Gate::Boolean { selector, .. } => *selector,
            Gate::Swap { selector, .. } => *selector,
        }
    }
}

/// The shape of a circuit: how many columns and selectors, and which gates.
pub struct ConstraintSystem {
    pub num_advice: usize,
    pub num_instance: usize,
    pub num_selectors: usize,
    pub gates: Vec<Gate>,
}

/// A gate refers only to declared columns and selectors.
pub open spec fn gate_fits(g: Gate, num_advice: usize, num_selectors: usize) -> bool {
    &&& g.selector_of() < num_selectors
    &&& match g {
        Gate::Product { left, right, output, .. } => left < num_advice && right < num_advice
            && output < num_advice,
        Gate::Boolean { bit, .. } => bit < num_advice,
        Gate::Swap { left, right, bit, .. } => left < num_advice && right < num_advice && bit
            < num_advice,
    }
}

/// No gate of `gates` is switched on by `selector`.
pub open spec fn selector_unused(gates: Seq<Gate>, selector: usize) -> bool {
    forall|i: int| 0 <= i < gates.len() ==> (#[trigger] gates[i]).selector_of() != selector
}

/// `g` is a gate of `gates`, and the only one that `g`'s selector switches on.
pub open spec fn sole_gate(gates: Seq<Gate>, g: Gate) -> bool {
    &&& gates.contains(g)
    &&& forall|i: int|
        0 <= i < gates.len() && (#[trigger] gates[i]).selector_of() == g.selector_of() ==> gates[i]
            == g
}

impl ConstraintSystem {
    pub open spec fn wf(&self) -> bool {
        forall|i: int|
            0 <= i < self.gates.len() ==> gate_fits(
                #[trigger] self.gates@[i],
                self.num_advice,
                self.num_selectors,
            )
    }

    /// Whether `self` is `old` with more columns, selectors or gates.
    pub open spec fn extends(&self, old: &ConstraintSystem) -> bool {
        &&& old.num_advice <= self.num_advice
        &&& old.num_instance <= self.num_instance
        &&& old.num_selectors <= self.num_selectors
        &&& old.gates@.is_prefix_of(self.gates@)
        &&& forall|i: int|
            old.gates.len() <= i < self.gates.len() ==> selector_unused(
                old.gates@,
                (#[trigger] self.gates@[i]).selector_of(),
            )
    }

    /// An empty shape.
    pub fn new() -> (r: ConstraintSystem)
        ensures
            r.wf(),
            r.num_advice == 0,
            r.num_instance == 0,
            r.num_selectors == 0,
            r.gates@.len() == 0,
    {
        ConstraintSystem { num_advice: 0, num_instance: 0, num_selectors: 0, gates: Vec::new() }
    }

    /// Declares a fresh witness column.
    pub fn advice_column(&mut self) -> (c: AdviceColumn)
        requires
            old(self).num_advice < usize::MAX,
        ensures
            c.index == old(self).num_advice,
            final(self).num_advice == old(self).num_advice + 1,
            final(self).num_instance == old(self).num_instance,
            final(self).num_selectors == old(self).num_selectors,
            final(self).gates@ == old(self).gates@,
    {
        let c = AdviceColumn { index: self.num_advice };
        self.num_advice = self.num_advice + 1;
        c
    }

    /// Declares a fresh public-input column.
    pub fn instance_column(&mut self) -> (c: InstanceColumn)
        requires
            old(self).num_instance < usize::MAX,
        ensures
            c.index == old(self).num_instance,
            final(self).num_advice == old(self).num_advice,
            final(self).num_instance == old(self).num_instance + 1,
            final(self).num_selectors == old(self).num_selectors,
            final(self).gates@ == old(self).gates@,
    {
        let c = InstanceColumn { index: self.num_instance };
        self.num_instance = self.num_instance + 1;
        c
    }

    /// Declares a fresh selector.
    pub fn selector(&mut self) -> (s: Selector)
        requires
            old(self).num_selectors < usize::MAX,
        ensures
            s.index == old(self).num_selectors,
            final(self).num_advice == old(self).num_advice,
            final(self).num_instance == old(self).num_instance,
            final(self).num_selectors == old(self).num_selectors + 1,
            final(self).gates@ == old(self).gates@,
    {
        let s = Selector { index: self.num_selectors };
        self.num_selectors = self.num_selectors + 1;
        s
    }

    /// Adds a gate whose selector no other gate uses.
    pub fn create_gate(&mut self, g: Gate)
        requires
            gate_fits(g, old(self).num_advice, old(self).num_selectors),
            selector_unused(old(self).gates@, g.selector_of()),
        ensures
            final(self).num_advice == old(self).num_advice,
            final(self).num_instance == old(self).num_instance,
            final(self).num_selectors == old(self).num_selectors,
            final(self).gates@ == old(self).gates@.push(g),
    {
        self.gates.push(g);
    }
}

/// A reference to one advice cell.
#[derive(Clone, Copy, Debug, PartialEq, Eq, Structural)]
pub struct CellRef {
    pub row: usize,
    pub column: usize,
}

/// One row of the grid: a value or nothing for each advice column, and a
/// flag for each selector.
#[derive(Debug)]
pub struct Row {
    pub cells: Vec<Option<Fe>>,
    pub enabled: Vec<bool>,
}

impl Row {
    /// A row with no cell assigned and no selector enabled.
    pub fn new(num_advice: usize, num_selectors: usize) -> (r: Row)
        ensures
            r.cells@.len() == num_advice,
            r.enabled@.len() == num_selectors,
            forall|c: int| 0 <= c < num_advice ==> r.cells@[c] is None,
            forall|s: int| 0 <= s < num_selectors ==> !r.enabled@[s],
    {
        let mut cells: Vec<Option<Fe>> = Vec::new();
        let mut i: usize = 0;
        while i < num_advice
            invariant
                i <= num_advice,
                cells@.len() == i,
                forall|c: int| 0 <= c < i ==> cells@[c] is None,
            decreases num_advice - i,
        {
            cells.push(None);
            i = i + 1;
        }
        let mut enabled: Vec<bool> = Vec::new();
        let mut j: usize = 0;
        while j < num_selectors
            invariant
                j <= num_selectors,
                enabled@.len() == j,
                forall|s: int| 0 <= s < j ==> !enabled@[s],
            decreases num_selectors - j,
        {
            enabled.push(false);
            j = j + 1;
        }
        Row { cells, enabled }
    }

    /// Assigns `v` to the cell in `column`.
    pub fn assign(&mut self, column: usize, v: Fe)
        requires
            column < old(self).cells@.len(),
        ensures
            final(self).cells@ == old(self).cells@.update(column as int, Some(v)),
            final(self).enabled@ == old(self).enabled@,
    {
        self.cells.set(column, Some(v));
    }

    /// Switches `selector` on for this row.
    pub fn enable(&mut self, selector: usize)
        requires
            selector < old(self).enabled@.len(),
        ensures
            final(self).cells@ == old(self).cells@,
            final(self).enabled@ == old(self).enabled@.update(selector as int, true),
    {
        self.enabled.set(selector, true);
    }
}

/// The content of cell (`r`, `c`), or nothing where it is unassigned or
/// outside the grid.
pub open spec fn cell_at(rows: Seq<Row>, r: int, c: int) -> Option<Fe> {
    if 0 <= r < rows.len() && 0 <= c < rows[r].cells@.len() {
        rows[r].cells@[c]
    } else {
        None
    }
}

pub open spec fn known(rows: Seq<Row>, r: int, c: int) -> bool {
    cell_at(rows, r, c) is Some
}

/// The value in cell (`r`, `c`); zero where it holds nothing.
pub open spec fn val(rows: Seq<Row>, r: int, c: int) -> int {
    match cell_at(rows, r, c) {
        Some(v) => v@,
        None => 0,
    }
}

pub open spec fn enabled_at(rows: Seq<Row>, r: int, s: int) -> bool {
    0 <= r < rows.len() && 0 <= s < rows[r].enabled@.len() && rows[r].enabled@[s]
}

/// A residue modulo the field prime is zero.
pub open spec fn vanishes(x: int) -> bool {
    x % modulus() == 0
}

/// Gate `g` holds at row `r`: where its selector is on, every cell that it
/// reads is assigned and each of its polynomials vanishes.
pub open spec fn gate_holds_at(g: Gate, rows: Seq<Row>, r: int) -> bool {
    enabled_at(rows, r, g.selector_of() as int) ==> match g {
        Gate::Product { left, right, output, .. } => {
            &&& known(rows, r, left as int)
            &&& known(rows, r, right as int)
            &&& known(rows, r, output as int)
            &&& vanishes(
                val(rows, r, left as int) * val(rows, r, right as int) - val(rows, r, output as int),
            )
        },
        Gate::Boolean { bit, .. } => {
            &&& known(rows, r, bit as int)
            &&& vanishes(val(rows, r, bit as int) * (1 - val(rows, r, bit as int)))
        },
        Gate::Swap { left, right, bit, .. } => {
            let l = val(rows, r, left as int);
            let rt = val(rows, r, right as int);
            let b = val(rows, r, bit as int);
            &&& known(rows, r, left as int)
            &&& known(rows, r, right as int)
            &&& known(rows, r, bit as int)
            &&& known(rows, r + 1, left as int)
            &&& known(rows, r + 1, right as int)
            &&& vanishes((rt - l) * b + l - val(rows, r + 1, left as int))
            &&& vanishes((l - rt) * b + rt - val(rows, r + 1, right as int))
        },
    }
}

pub open spec fn gates_hold(gates: Seq<Gate>, rows: Seq<Row>) -> bool {
    forall|i: int, r: int|
        0 <= i < gates.len() && 0 <= r < rows.len() ==> #[trigger] gate_holds_at(gates[i], rows, r)
}

/// Some gate that reads only its own row fails at some row. Appending rows
/// cannot repair such a failure.
pub open spec fn has_local_failure(gates: Seq<Gate>, rows: Seq<Row>) -> bool {
    exists|i: int, r: int|
        0 <= i < gates.len() && 0 <= r < rows.len() && !(gates[i] is Swap) && !#[trigger] gate_holds_at(
            gates[i],
            rows,
            r,
        )
}

pub open spec fn copy_holds(rows: Seq<Row>, a: CellRef, b: CellRef) -> bool {
    &&& known(rows, a.row as int, a.column as int)
    &&& known(rows, b.row as int, b.column as int)
    &&& val(rows, a.row as int, a.column as int) == val(rows, b.row as int, b.column as int)
}

pub open spec fn copies_hold(rows: Seq<Row>, copies: Seq<(CellRef, CellRef)>) -> bool {
    forall|k: int| 0 <= k < copies.len() ==> copy_holds(rows, #[trigger] copies[k].0, copies[k].1)
}

/// A cell bound to row `row` of public column `column`.
#[derive(Clone, Copy, Debug, PartialEq, Eq, Structural)]
pub struct Binding {
    pub cell: CellRef,
    pub column: usize,
    pub row: usize,
}

/// The public value at (`column`, `row`) exists and equals the bound cell.
pub open spec fn binding_holds(rows: Seq<Row>, b: Binding, instances: Seq<Vec<Fe>>) -> bool {
    &&& b.column < instances.len()
    &&& b.row < instances[b.column as int]@.len()
    &&& known(rows, b.cell.row as int, b.cell.column as int)
    &&& val(rows, b.cell.row as int, b.cell.column as int)
        == instances[b.column as int]@[b.row as int]@
}

pub open spec fn bindings_hold(
    rows: Seq<Row>,
    bindings: Seq<Binding>,
    instances: Seq<Vec<Fe>>,
) -> bool {
    forall|k: int| 0 <= k < bindings.len() ==> binding_holds(rows, #[trigger] bindings[k], instances)
}

/// A cell together with the value it was assigned.
#[derive(Clone, Copy, Debug)]
pub struct AssignedCell {
    pub cell: CellRef,
    pub value: Fe,
}

/// One synthesis pass: the rows allocated so far, the copy constraints and
/// the public bindings.
pub struct Layouter {
    pub rows: Vec<Row>,
    pub copies: Vec<(CellRef, CellRef)>,
    pub bindings: Vec<Binding>,
}

impl Layouter {
    /// Every gate holds on every row and every copy constraint holds.
    pub open spec fn consistent(&self, gates: Seq<Gate>) -> bool {
        gates_hold(gates, self.rows@) && copies_hold(self.rows@, self.copies@)
    }

    /// `self` was reached from `old` by allocating rows and adding copy
    /// constraints; no binding was added.
    pub open spec fn extends(&self, old: &Layouter) -> bool {
        &&& old.rows@.is_prefix_of(self.rows@)
        &&& old.copies@.is_prefix_of(self.copies@)
        &&& self.bindings@ == old.bindings@
    }

    /// `c` is assigned in this grid, with its value.
    pub open spec fn holds(&self, c: AssignedCell) -> bool {
        cell_at(self.rows@, c.cell.row as int, c.cell.column as int) == Some(c.value)
    }

    /// A grid with no rows.
    pub fn new() -> (r: Layouter)
        ensures
            r.rows@.len() == 0,
            r.copies@.len() == 0,
            r.bindings@.len() == 0,
    {
        Layouter { rows: Vec::new(), copies: Vec::new(), bindings: Vec::new() }
    }
}


impl Layouter {
    /// Appends the rows of `region` below the rows allocated so far and
    /// returns the index of its first row.
    pub fn assign_region(&mut self, region: Vec<Row>) -> (start: usize)
        ensures
            start == old(self).rows@.len(),
            final(self).rows@ == old(self).rows@ + region@,
            final(self).copies@ == old(self).copies@,
            final(self).bindings@ == old(self).bindings@,
    {
        let start = self.rows.len();
        let mut region = region;
        self.rows.append(&mut region);
        start
    }

    /// Requires the cells `a` and `b` to hold equal values.
    pub fn copy(&mut self, a: CellRef, b: CellRef)
        ensures
            final(self).rows@ == old(self).rows@,
            final(self).copies@ == old(self).copies@.push((a, b)),
            final(self).bindings@ == old(self).bindings@,
    {
        self.copies.push((a, b));
    }

    /// Binds `cell` to row `row` of the public column `column`.
    pub fn constrain_instance(&mut self, cell: CellRef, column: InstanceColumn, row: usize)
        ensures
            final(self).rows@ == old(self).rows@,
            final(self).copies@ == old(self).copies@,
            final(self).bindings@ == old(self).bindings@.push(
                Binding { cell, column: column.index, row },
            ),
    {
        self.bindings.push(Binding { cell, column: column.index, row });
    }
}

/// Rows below the existing ones leave the existing cells and flags as they
/// were, and the appended rows read as they did on their own.
pub proof fn lemma_append_cells(old: Seq<Row>, region: Seq<Row>)
    ensures
        forall|r: int, c: int|
            0 <= r < old.len() ==> #[trigger] cell_at(old + region, r, c) == cell_at(old, r, c),
        forall|r: int, s: int|
            0 <= r < old.len() ==> #[trigger] enabled_at(old + region, r, s) == enabled_at(
                old,
                r,
                s,
            ),
        forall|i: int, c: int|
            0 <= i ==> #[trigger] cell_at(old + region, old.len() + i, c) == cell_at(region, i, c),
        forall|i: int, s: int|
            0 <= i ==> #[trigger] enabled_at(old + region, old.len() + i, s) == enabled_at(
                region,
                i,
                s,
            ),
{
    assert forall|r: int, c: int| 0 <= r < old.len() implies #[trigger] cell_at(old + region, r, c)
        == cell_at(old, r, c) by {
        assert((old + region)[r] == old[r]);
    }
    assert forall|r: int, s: int| 0 <= r < old.len() implies #[trigger] enabled_at(
        old + region,
        r,
        s,
    ) == enabled_at(old, r, s) by {
        assert((old + region)[r] == old[r]);
    }
    assert forall|i: int, c: int| 0 <= i implies #[trigger] cell_at(
        old + region,
        old.len() + i,
        c,
    ) == cell_at(region, i, c) by {
        if i < region.len() {
            assert((old + region)[old.len() + i] == region[i]);
        }
    }
    assert forall|i: int, s: int| 0 <= i implies #[trigger] enabled_at(
        old + region,
        old.len() + i,
        s,
    ) == enabled_at(region, i, s) by {
        if i < region.len() {
            assert((old + region)[old.len() + i] == region[i]);
        }
    }
}

/// A gate that holds at an existing row still holds once rows are appended,
/// and a failure of a gate that reads only its own row persists.
pub proof fn lemma_append_gate_at(g: Gate, old: Seq<Row>, region: Seq<Row>, r: int)
    requires
        0 <= r < old.len(),
    ensures
        gate_holds_at(g, old, r) ==> gate_holds_at(g, old + region, r),
        !(g is Swap) ==> (gate_holds_at(g, old, r) == gate_holds_at(g, old + region, r)),
{
    lemma_append_cells(old, region);
    if r + 1 == old.len() {
        assert(cell_at(old, r + 1, 0) is None);
    }
}

/// A gate that holds at row `i` of a region holds at the row where the
/// region lands.
pub proof fn lemma_append_gate_shift(g: Gate, old: Seq<Row>, region: Seq<Row>, i: int)
    requires
        0 <= i < region.len(),
    ensures
        gate_holds_at(g, region, i) == gate_holds_at(g, old + region, old.len() + i),
{
    lemma_append_cells(old, region);
    assert(old.len() + (i + 1) == old.len() + i + 1);
}

/// Appending a region whose own rows satisfy every gate keeps every gate
/// satisfied, keeps copy constraints satisfied, and keeps local failures.
pub proof fn lemma_append(
    gates: Seq<Gate>,
    copies: Seq<(CellRef, CellRef)>,
    old: Seq<Row>,
    region: Seq<Row>,
)
    ensures
        gates_hold(gates, old) && gates_hold(gates, region) ==> gates_hold(gates, old + region),
        copies_hold(old, copies) ==> copies_hold(old + region, copies),
        has_local_failure(gates, old) ==> has_local_failure(gates, old + region),
        forall|r: int, c: int|
            0 <= r < old.len() ==> #[trigger] cell_at(old + region, r, c) == cell_at(old, r, c),
{
    lemma_append_cells(old, region);
    let rows = old + region;
    if gates_hold(gates, old) && gates_hold(gates, region) {
        assert forall|i: int, r: int| 0 <= i < gates.len() && 0 <= r < rows.len() implies #[trigger] gate_holds_at(
            gates[i],
            rows,
            r,
        ) by {
            if r < old.len() {
                assert(gate_holds_at(gates[i], old, r));
                lemma_append_gate_at(gates[i], old, region, r);
            } else {
                let j = r - old.len();
                assert(gate_holds_at(gates[i], region, j));
                lemma_append_gate_shift(gates[i], old, region, j);
            }
        }
    }
    if copies_hold(old, copies) {
        assert forall|k: int| 0 <= k < copies.len() implies copy_holds(
            rows,
            #[trigger] copies[k].0,
            copies[k].1,
        ) by {
            assert(copy_holds(old, copies[k].0, copies[k].1));
            let a = copies[k].0;
            let b = copies[k].1;
            if !(0 <= a.row < old.len()) {
                assert(cell_at(old, a.row as int, a.column as int) is None);
            }
            if !(0 <= b.row < old.len()) {
                assert(cell_at(old, b.row as int, b.column as int) is None);
            }
        }
    }
    if has_local_failure(gates, old) {
        let (i, r) = choose|i: int, r: int|
            0 <= i < gates.len() && 0 <= r < old.len() && !(gates[i] is Swap) && !#[trigger] gate_holds_at(
                gates[i],
                old,
                r,
            );
        lemma_append_gate_at(gates[i], old, region, r);
        assert(!gate_holds_at(gates[i], rows, r));
    }
}

fn get_cell(rows: &Vec<Row>, r: usize, c: usize) -> (res: Option<Fe>)
    ensures
        res == cell_at(rows@, r as int, c as int),
{
    if r < rows.len() && c < rows[r].cells.len() {
        rows[r].cells[c]
    } else {
        None
    }
}

fn is_enabled(rows: &Vec<Row>, r: usize, s: usize) -> (res: bool)
    ensures
        res == enabled_at(rows@, r as int, s as int),
{
    r < rows.len() && s < rows[r].enabled.len() && rows[r].enabled[s]
}

/// Evaluates `(right - left) * bit + left - next` in the field.
fn eval_swap_poly(left: &Fe, right: &Fe, bit: &Fe, next: &Fe) -> (res: Fe)
    ensures
        res@ == ((right@ - left@) * bit@ + left@ - next@) % modulus(),
{
    let t1 = right.sub(left);
    let t2 = t1.mul(bit);
    let t3 = left.sub(next);
    let t4 = t2.add(&t3);
    proof {
        lemma_mul_mod_noop_left(right@ - left@, bit@, modulus());
        lemma_add_mod_noop((right@ - left@) * bit@, left@ - next@, modulus());
        assert((right@ - left@) * bit@ + (left@ - next@) == (right@ - left@) * bit@ + left@ - next@);
    }
    t4
}

/// Whether gate `g` holds at row `r`.
pub fn gate_holds(g: &Gate, rows: &Vec<Row>, r: usize) -> (res: bool)
    ensures
        res == gate_holds_at(*g, rows@, r as int),
{
    if !is_enabled(rows, r, g.selector()) {
        return true;
    }
    let zero = Fe::zero();
    match g {
        Gate::Product { left, right, output, .. } => {
            match (get_cell(rows, r, *left), get_cell(rows, r, *right), get_cell(rows, r, *output)) {
                (Some(a), Some(b), Some(o)) => {
                    let d = a.mul(&b).sub(&o);
                    proof {
                        Fe::lemma_in_range(o);
                        lemma_small_mod(o@ as nat, modulus() as nat);
                        lemma_sub_mod_noop(a@ * b@, o@, modulus());
                    }
                    d.equals(&zero)
                },
                _ => false,
            }
        },
        Gate::Boolean { bit, .. } => {
            match get_cell(rows, r, *bit) {
                Some(b) => {
                    let m = b.mul(&Fe::one().sub(&b));
                    proof {
                        lemma_mul_mod_noop_right(b@, 1 - b@, modulus());
                    }
                    m.equals(&zero)
                },
                None => false,
            }
        },
        Gate::Swap { left, right, bit, .. } => {
            if r >= rows.len() - 1 {
                return false;
            }
            match (
                get_cell(rows, r, *left),
                get_cell(rows, r, *right),
                get_cell(rows, r, *bit),
                get_cell(rows, r + 1, *left),
                get_cell(rows, r + 1, *right),
            ) {
                (Some(l), Some(rt), Some(b), Some(l2), Some(r2)) => {
                    let e1 = eval_swap_poly(&l, &rt, &b, &l2);
                    let e2 = eval_swap_poly(&rt, &l, &b, &r2);
                    e1.equals(&zero) && e2.equals(&zero)
                },
                _ => false,
            }
        },
    }
}

/// Whether every gate holds on every row.
pub fn check_gates(gates: &Vec<Gate>, rows: &Vec<Row>) -> (ok: bool)
    ensures
        ok == gates_hold(gates@, rows@),
{
    let mut i: usize = 0;
    while i < gates.len()
        invariant
            i <= gates@.len(),
            forall|i2: int, r: int|
                0 <= i2 < i && 0 <= r < rows@.len() ==> #[trigger] gate_holds_at(gates@[i2], rows@, r),
        decreases gates@.len() - i,
    {
        let mut r: usize = 0;
        while r < rows.len()
            invariant
                i < gates@.len(),
                r <= rows@.len(),
                forall|i2: int, r2: int|
                    0 <= i2 < i && 0 <= r2 < rows@.len() ==> #[trigger] gate_holds_at(
                        gates@[i2],
                        rows@,
                        r2,
                    ),
                forall|r2: int| 0 <= r2 < r ==> #[trigger] gate_holds_at(gates@[i as int], rows@, r2),
            decreases rows@.len() - r,
        {
            if !gate_holds(&gates[i], rows, r) {
                assert(!gate_holds_at(gates@[i as int], rows@, r as int));
                return false;
            }
            r = r + 1;
        }
        i = i + 1;
    }
    true
}

/// Whether every copy constraint holds.
pub fn check_copies(rows: &Vec<Row>, copies: &Vec<(CellRef, CellRef)>) -> (ok: bool)
    ensures
        ok == copies_hold(rows@, copies@),
{
    let mut k: usize = 0;
    while k < copies.len()
        invariant
            k <= copies@.len(),
            forall|k2: int| 0 <= k2 < k ==> copy_holds(rows@, #[trigger] copies@[k2].0, copies@[k2].1),
        decreases copies@.len() - k,
    {
        let (a, b) = copies[k];
        let ok = match (get_cell(rows, a.row, a.column), get_cell(rows, b.row, b.column)) {
            (Some(x), Some(y)) => x.equals(&y),
            _ => false,
        };
        if !ok {
            assert(!copy_holds(rows@, copies@[k as int].0, copies@[k as int].1));
            return false;
        }
        k = k + 1;
    }
    true
}

/// Whether every public binding holds against `instances`.
pub fn check_bindings(rows: &Vec<Row>, bindings: &Vec<Binding>, instances: &Vec<Vec<Fe>>) -> (ok:
    bool)
    ensures
        ok == bindings_hold(rows@, bindings@, instances@),
{
    let mut k: usize = 0;
    while k < bindings.len()
        invariant
            k <= bindings@.len(),
            forall|k2: int|
                0 <= k2 < k ==> binding_holds(rows@, #[trigger] bindings@[k2], instances@),
        decreases bindings@.len() - k,
    {
        let b = bindings[k];
        let ok = if b.column < instances.len() && b.row < instances[b.column].len() {
            match get_cell(rows, b.cell.row, b.cell.column) {
                Some(x) => x.equals(&instances[b.column][b.row]),
                None => false,
            }
        } else {
            false
        };
        if !ok {
            assert(!binding_holds(rows@, bindings@[k as int], instances@));
            return false;
        }
        k = k + 1;
    }
    true
}

/// Whether the assignment satisfies the circuit shape `cs` for the public
/// values `instances`: every gate, copy constraint and binding holds.
pub fn is_satisfied(cs: &ConstraintSystem, layouter: &Layouter, instances: &Vec<Vec<Fe>>) -> (ok:
    bool)
    ensures
        ok == (layouter.consistent(cs.gates@) && bindings_hold(
            layouter.rows@,
            layouter.bindings@,
            instances@,
        )),
{
    check_gates(&cs.gates, &layouter.rows) && check_copies(&layouter.rows, &layouter.copies)
        && check_bindings(&layouter.rows, &layouter.bindings, instances)
}

/// Binding `b` ties a cell holding `value` to row `row` of public column
/// `column`.
pub open spec fn bound_to(rows: Seq<Row>, b: Binding, column: usize, row: usize, value: int) -> bool {
    &&& b.column == column
    &&& b.row == row
    &&& known(rows, b.cell.row as int, b.cell.column as int)
    &&& val(rows, b.cell.row as int, b.cell.column as int) == value
}

/// Row `row` of the first public column exists and holds `value`.
pub open spec fn public_value(instances: Seq<Vec<Fe>>, row: int, value: int) -> bool {
    &&& instances.len() > 0
    &&& 0 <= row < instances[0]@.len()
    &&& instances[0]@[row]@ == value
}

/// A failure of a row-local gate means the gates do not all hold.
pub proof fn lemma_failure_breaks(gates: Seq<Gate>, rows: Seq<Row>)
    requires
        has_local_failure(gates, rows),
    ensures
        !gates_hold(gates, rows),
{
    let (i, r) = choose|i: int, r: int|
        0 <= i < gates.len() && 0 <= r < rows.len() && !(gates[i] is Swap) && !#[trigger] gate_holds_at(
            gates[i],
            rows,
            r,
        );
    assert(!gate_holds_at(gates[i], rows, r));
}

/// Appending a row on which no selector is enabled keeps the grid
/// consistent and keeps local failures.
pub proof fn lemma_append_free_row(
    gates: Seq<Gate>,
    copies: Seq<(CellRef, CellRef)>,
    old: Seq<Row>,
    row: Row,
)
    requires
        forall|s: int| 0 <= s < row.enabled@.len() ==> !row.enabled@[s],
    ensures
        gates_hold(gates, old) && copies_hold(old, copies) ==> gates_hold(gates, old + seq![row])
            && copies_hold(old + seq![row], copies),
        has_local_failure(gates, old) ==> has_local_failure(gates, old + seq![row]),
        forall|c: int| #[trigger] cell_at(old + seq![row], old.len() as int, c) == cell_at(seq![row], 0, c),
        forall|r: int, c: int|
            0 <= r < old.len() ==> #[trigger] cell_at(old + seq![row], r, c) == cell_at(old, r, c),
{
    let region = seq![row];
    assert forall|i: int, r: int| 0 <= i < gates.len() && 0 <= r < region.len() implies #[trigger] gate_holds_at(
        gates[i],
        region,
        r,
    ) by {
        assert(region[r] == row);
    }
    lemma_append(gates, copies, old, region);
    lemma_append_cells(old, region);
    assert forall|c: int| #[trigger] cell_at(old + region, old.len() as int, c) == cell_at(region, 0, c) by {
        assert(cell_at(old + region, old.len() as int + 0, c) == cell_at(region, 0, c));
    }
}

/// Cells of a prefix of the rows read the same in the longer grid.
pub proof fn lemma_prefix_cells(old: Seq<Row>, rows: Seq<Row>)
    requires
        old.is_prefix_of(rows),
    ensures
        forall|r: int, c: int|
            0 <= r < old.len() ==> #[trigger] cell_at(rows, r, c) == cell_at(old, r, c),
        forall|r: int, s: int|
            0 <= r < old.len() ==> #[trigger] enabled_at(rows, r, s) == enabled_at(old, r, s),
{
    assert forall|r: int, c: int| 0 <= r < old.len() implies #[trigger] cell_at(rows, r, c)
        == cell_at(old, r, c) by {
        assert(rows.subrange(0, old.len() as int)[r] == rows[r]);
    }
    assert forall|r: int, s: int| 0 <= r < old.len() implies #[trigger] enabled_at(rows, r, s)
        == enabled_at(old, r, s) by {
        assert(rows.subrange(0, old.len() as int)[r] == rows[r]);
    }
}

/// Entries of a prefix read the same in the longer sequence.
pub proof fn lemma_prefix_index<A>(old: Seq<A>, s: Seq<A>)
    requires
        old.is_prefix_of(s),
    ensures
        forall|i: int| 0 <= i < old.len() ==> #[trigger] s[i] == old[i],
{
    assert forall|i: int| 0 <= i < old.len() implies #[trigger] s[i] == old[i] by {
        assert(s.subrange(0, old.len() as int)[i] == s[i]);
    }
}

/// Cell (`r`, `c`) is assigned and holds `v`.
pub open spec fn holds_value(rows: Seq<Row>, r: int, c: int, v: int) -> bool {
    known(rows, r, c) && val(rows, r, c) == v
}

/// The selectors enabled on row `r` are exactly those of `on`.
pub open spec fn selectors_exactly(rows: Seq<Row>, r: int, on: Set<int>) -> bool {
    forall|s: int| #[trigger] enabled_at(rows, r, s) == on.contains(s)
}

/// The selectors of an existing row stay as they were when rows are
/// appended.
pub proof fn lemma_prefix_selectors(old: Seq<Row>, rows: Seq<Row>, r: int, on: Set<int>)
    requires
        old.is_prefix_of(rows),
        0 <= r < old.len(),
        selectors_exactly(old, r, on),
    ensures
        selectors_exactly(rows, r, on),
{
    lemma_prefix_cells(old, rows);
    assert forall|s: int| #[trigger] enabled_at(rows, r, s) == on.contains(s) by {
        assert(enabled_at(rows, r, s) == enabled_at(old, r, s));
    }
}

} // verus!
