//! Keyed sponge constructions over the 320-bit Ascon permutation: a
//! message authentication code with a fixed 128-bit tag, a pseudorandom
//! function with extendable output, two block generators for
//! random-number layers, and a single-call PRF for short inputs.
//!
//! Every function states in its contract which bytes or words it produces,
//! as a function of the key, of the bytes absorbed so far and of the
//! permutation. The permutation itself is the one piece taken on trust.

pub mod buffer;
pub mod mac;
pub mod padding;
pub mod permutation;
pub mod prf;
pub mod prng;
pub mod separation;
pub mod sponge;
pub mod word;

pub use mac::{AsconMac, AsconMacCore, MacError};
pub use prf::{ascon_prf_short, ascon_prf_short_128, AsconPrf};
pub use prng::AsconPrng;
