//! Decisions of the interactive debugger that do not touch its input or output.

use vstd::prelude::*;

verus! {

/// Whether `run` stops before the instruction at fetch pc `pc`: the pc has left the
/// program, or a breakpoint is set there.
pub fn run_stops(pc: u16, program_len: usize, breakpoints: &Vec<u16>) -> (r: bool)
    ensures
        r == (pc >= program_len || breakpoints@.contains(pc)),
{
    if pc as usize >= program_len {
        return true;
    }
    let mut i: usize = 0;
    while i < breakpoints.len()
        invariant
            i <= breakpoints@.len(),
            forall|j: int| 0 <= j < i ==> breakpoints@[j] != pc,
        decreases breakpoints@.len() - i,
    {
        if breakpoints[i] == pc {
            assert(breakpoints@[i as int] == pc);
            return true;
        }
        i += 1;
    }
    false
}

} // verus!
