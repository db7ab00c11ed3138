//! Arithmetic in the rings `Z[X]/(X^n + 1)` and `(Z/pZ)[X]/(X^n + 1)` for a
//! power-of-two degree `n`, with balanced representatives for the residues.
pub mod integer;
pub mod residue;
pub mod degree;
pub mod polynomial;
pub mod traits;
pub mod cyclotomic;
pub mod laws;
