//! The 12-round Ascon permutation, the single primitive every construction
//! of this crate is built on.

use vstd::prelude::*;

verus! {

/// The five words that twelve rounds of the Ascon permutation make of the
/// five words `words`.
pub uninterp spec fn permuted(words: Seq<u64>) -> Seq<u64>;

/// Whether the permutation sends the two different inputs `x` and `y` to
/// one output. Nothing in this crate says that it never does: what is
/// proved of different outputs is proved up to such a pair.
pub open spec fn collide(x: Seq<u64>, y: Seq<u64>) -> bool {
    x != y && permuted(x) == permuted(y)
}

/// Builds an `ascon::State` from the five words with `State::new`, runs
/// `State::permute_12` on it, and reads the five words back through the
/// state's `Index` impl, at indices 0 to 4.
///
/// This is the one function of the crate whose contract is taken on trust.
/// The contract unfolds no round: it only gives the result its name,
/// `permuted`. That rests on what `permute_12` is seen to do: it computes
/// the new words from the old ones and from twelve fixed round constants,
/// by XOR, AND, NOT and rotations, so that the same words always give the
/// same result and no input makes it fail.
#[verifier::external_body]
pub(crate) fn permute_12(words: [u64; 5]) -> (out: [u64; 5])
    ensures
        out@ == permuted(words@),
{
    let mut state = ascon::State::new(words[0], words[1], words[2], words[3], words[4]);
    state.permute_12();
    [state[0], state[1], state[2], state[3], state[4]]
}

} // verus!
