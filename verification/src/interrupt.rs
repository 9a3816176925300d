//! Finding the request to stop in what was typed.

use vstd::prelude::*;

verus! {

/// The byte that a terminal sends for the key that asks a program to stop.
pub const INTERRUPT_BYTE: u8 = 3;

/// Whether `input` holds the byte that asks the program to stop.
pub fn interrupt_requested(input: &[u8]) -> (found: bool)
    ensures
        found == input@.contains(INTERRUPT_BYTE),
{
    let mut i: usize = 0;
    while i < input.len()
        invariant
            i <= input@.len(),
            forall|j: int| 0 <= j < i ==> input@[j] != INTERRUPT_BYTE,
        decreases input@.len() - i,
    {
        if input[i] == INTERRUPT_BYTE {
            return true;
        }
        i = i + 1;
    }
    false
}

} // verus!
