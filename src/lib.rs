//! The Chaskey family of lightweight message authentication codes, and the
//! Even–Mansour block cipher built from the same permutation.
//!
//! Every function here is verified: the permutation and its inverse, the key
//! schedule, the incremental digester and the tag comparison each carry a
//! contract stated over the mathematical model in [`permutation`] and [`mac`].
//!
//! While Chaskey is a cryptographic algorithm, this implementation has not
//! been reviewed for side channels beyond what the code states.

pub mod cipher;
pub mod mac;
pub mod permutation;
mod util;

pub use crate::mac::{make_keys, Digester, Keys, Tag};
pub use crate::permutation::{Chaskey, Chaskey12, ChaskeyLTS, Permutation};
