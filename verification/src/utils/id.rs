//! Identifiers of maps: short strings of letters and digits, drawn with the
//! seed of the map.

use crate::utils::random::pcg_below;
use crate::utils::random::pcg_from_seed;
use crate::utils::random::pcg_gen_below;
use crate::utils::random::pcg_seeded;
use crate::utils::random::pcg_state;
use vstd::prelude::*;
use vstd::string::StrSliceExecFns;

verus! {

/// The characters that identifiers are made of.
pub const ALPHABET: &'static str = "ABCDEFGHIJKLMNOPQRSTUVWXYZabcdefghijklmnopqrstuvwxyz0123456789";

/// The number of characters in `ALPHABET`.
pub const ALPHABET_LEN: u64 = 62;

/// `String::push` of the standard library, which appends the character to
/// the end of the string.
pub assume_specification[ String::push ](s: &mut String, ch: char)
    ensures
        final(s)@ == old(s)@.push(ch),
;

/// The identifier that a generator in state `rng` gives after the
/// characters in `drawn`, with `len` characters to go: each is the character
/// of the alphabet at the place that the generator draws.
pub open spec fn spec_id(rng: u128, drawn: Seq<char>, len: nat) -> Seq<char>
    decreases len,
{
    if len == 0 {
        drawn
    } else {
        let d = pcg_below(rng, ALPHABET_LEN);
        spec_id(d.0, drawn.push(ALPHABET@[d.1 as int]), (len - 1) as nat)
    }
}

/// The identifier of `len` characters for a seed: each character is drawn
/// from the alphabet with the generator that the seed gives.
pub fn new(seed: u64, len: usize) -> (r: String)
    ensures
        r@ == spec_id(pcg_seeded(seed), Seq::empty(), len as nat),
        r@.len() == len,
        forall|i: int| 0 <= i < r@.len() ==> ALPHABET@.contains(#[trigger] r@[i]),
{
    proof {
        reveal_strlit("ABCDEFGHIJKLMNOPQRSTUVWXYZabcdefghijklmnopqrstuvwxyz0123456789");
    }
    let mut rng = pcg_from_seed(seed);
    let mut id = String::new();
    let mut i: usize = 0;
    while i < len
        invariant
            i <= len,
            ALPHABET@.len() == ALPHABET_LEN,
            id@.len() == i,
            forall|k: int| 0 <= k < id@.len() ==> ALPHABET@.contains(#[trigger] id@[k]),
            spec_id(pcg_seeded(seed), Seq::empty(), len as nat) == spec_id(
                pcg_state(rng),
                id@,
                (len - i) as nat,
            ),
        decreases len - i,
    {
        let idx = pcg_gen_below(&mut rng, ALPHABET_LEN);
        let ch = ALPHABET.get_char(idx as usize);
        let ghost before = id@;
        id.push(ch);
        proof {
            assert(ALPHABET@[idx as int] == ch);
            assert forall|k: int| 0 <= k < id@.len() implies ALPHABET@.contains(
                #[trigger] id@[k],
            ) by {
                if k < before.len() {
                    assert(id@[k] == before[k]);
                }
            }
        }
        i += 1;
    }
    id
}

} // verus!
