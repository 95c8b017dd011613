//! The inclusion pallet: the state of the paras whose candidates are backed but not yet available,
//! and the rules by which candidates go from backable to backed, and from backed to included.
//!
//! The storage of the pallet is a value of [`pallet::Pallet`]. What the pallet asks of its
//! sibling pallets and of the runtime is collected as a list of [`pallet::Effect`]s, which the
//! embedding runtime carries out in order. What it has to learn from them comes in as plain values
//! or through closures.
//!
//! [`laws`] and [`round_laws`] state what holds of the pallet as a whole.

pub mod acceptance_laws;
pub mod availability;
pub mod backing;
pub mod backing_laws;
pub mod bitfields;
pub mod bits;
pub mod checks;
pub mod cleanup_laws;
pub mod inclusion_laws;
pub mod laws;
pub mod pallet;
pub mod primitives;
pub mod round;
pub mod round_laws;
pub mod storage;
pub mod view_laws;
pub mod weights;
