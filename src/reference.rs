//! Off-circuit computation of the values that the circuits publish: the same
//! placeholder hash and combine rule, on plain field elements.

use vstd::prelude::*;
use crate::field::{Fe, modulus};
use crate::hash_chip::hash_spec;
use crate::merkle_chip::fold_root;
use vstd::arithmetic::div_mod::lemma_small_mod;

verus! {

/// The product of `values` in the field; 1 for no values.
pub open spec fn product_spec(values: Seq<Fe>) -> int
    decreases values.len(),
{
    if values.len() == 0 {
        1
    } else {
        (product_spec(values.drop_last()) * values.last()@) % modulus()
    }
}

/// The placeholder hash of any number of values: their product.
pub fn hash_values(values: &Vec<Fe>) -> (r: Fe)
    ensures
        r@ == product_spec(values@),
{
    let mut acc = Fe::one();
    let mut i: usize = 0;
    while i < values.len()
        invariant
            i <= values@.len(),
            acc@ == product_spec(values@.subrange(0, i as int)),
        decreases values@.len() - i,
    {
        acc = acc.mul(&values[i]);
        proof {
            let s = values@.subrange(0, i + 1);
            assert(s.drop_last() == values@.subrange(0, i as int));
        }
        i = i + 1;
    }
    proof {
        assert(values@.subrange(0, i as int) == values@);
    }
    acc
}

/// The product of two values is their placeholder hash.
pub proof fn lemma_product_of_pair(left: Fe, right: Fe)
    ensures
        product_spec(seq![left, right]) == hash_spec(left@, right@),
{
    let s = seq![left, right];
    assert(s.drop_last() == seq![left]);
    assert(seq![left].drop_last() == Seq::<Fe>::empty());
    Fe::lemma_in_range(left);
    lemma_small_mod(left@ as nat, modulus() as nat);
    assert(product_spec(Seq::<Fe>::empty()) == 1);
    assert(product_spec(seq![left]) == (1 * left@) % modulus());
    assert(product_spec(seq![left]) == left@);
    assert(product_spec(s) == (product_spec(seq![left]) * right@) % modulus());
}

/// The hash of `value` with itself.
pub fn hash_value(value: Fe) -> (r: Fe)
    ensures
        r@ == hash_spec(value@, value@),
{
    let v = vec![value, value];
    proof {
        lemma_product_of_pair(value, value);
        assert(v@ == seq![value, value]);
    }
    hash_values(&v)
}

/// Folds `leaf` up the tree: at each level the running node is the left
/// child when the direction bit is zero and the right child otherwise.
pub fn compute_root(leaf: Fe, path_elements: &Vec<Fe>, path_indices: &Vec<Fe>) -> (r: Fe)
    requires
        path_elements@.len() == path_indices@.len(),
    ensures
        r@ == fold_root(leaf@, path_elements@, path_indices@),
{
    let mut node = leaf;
    let mut i: usize = 0;
    while i < path_elements.len()
        invariant
            i <= path_elements@.len(),
            path_elements@.len() == path_indices@.len(),
            node@ == fold_root(
                leaf@,
                path_elements@.subrange(0, i as int),
                path_indices@.subrange(0, i as int),
            ),
        decreases path_elements@.len() - i,
    {
        let (left, right) = if path_indices[i].equals(&Fe::zero()) {
            (node, path_elements[i])
        } else {
            (path_elements[i], node)
        };
        let pair = vec![left, right];
        proof {
            lemma_product_of_pair(left, right);
            assert(pair@ == seq![left, right]);
            let es = path_elements@.subrange(0, i + 1);
            let bs = path_indices@.subrange(0, i + 1);
            assert(es.drop_last() == path_elements@.subrange(0, i as int));
            assert(bs.drop_last() == path_indices@.subrange(0, i as int));
        }
        node = hash_values(&pair);
        i = i + 1;
    }
    proof {
        assert(path_elements@.subrange(0, i as int) == path_elements@);
        assert(path_indices@.subrange(0, i as int) == path_indices@);
    }
    node
}

} // verus!
