//! A membership-proof circuit over the Pallas base field: a product gate, a
//! boolean-checked conditional swap, a Merkle path folded from a leaf to a
//! root, and the mixer circuit that binds a nullifier hash and a tree root to
//! public inputs. The constraint grid and the satisfaction test over it are
//! verified; field arithmetic is delegated to `halo2_proofs`.

pub mod field;
pub mod plonk;
pub mod hash_chip;
pub mod merkle_chip;
pub mod tornado_chip;
pub mod circuits;
pub mod reference;
pub mod guarantees;
