//! Emission of a lowered program as machine words.

use crate::instructions::Instruction;
use vstd::prelude::*;

verus! {

/// The words of a program: the encodings of its instructions, in order.
pub open spec fn encode_all(program: Seq<Instruction>) -> Seq<u16>
    decreases program.len(),
{
    if program.len() == 0 {
        Seq::empty()
    } else {
        encode_all(program.drop_last()) + program.last().encoding()
    }
}

/// Encodes every instruction of a lowered program and concatenates the words.
pub fn compile(program: &Vec<Instruction>) -> (r: Vec<u16>)
    requires
        forall|i: int| 0 <= i < program@.len() ==> (#[trigger] program@[i]).wf() && !(program@[i] is BranchLabel),
    ensures
        r@ == encode_all(program@),
{
    let mut out: Vec<u16> = Vec::new();
    let mut i: usize = 0;
    while i < program.len()
        invariant
            i <= program@.len(),
            forall|j: int| 0 <= j < program@.len() ==> (#[trigger] program@[j]).wf() && !(program@[j] is BranchLabel),
            out@ == encode_all(program@.take(i as int)),
        decreases program@.len() - i,
    {
        let words = program[i].to_binary();
        let mut k: usize = 0;
        let ghost before = out@;
        while k < words.len()
            invariant
                k <= words@.len(),
                out@ == before + words@.take(k as int),
            decreases words@.len() - k,
        {
            out.push(words[k]);
            k += 1;
            assert(out@ =~= before + words@.take(k as int));
        }
        assert(program@.take(i + 1).drop_last() =~= program@.take(i as int));
        assert(words@.take(k as int) =~= words@);
        i += 1;
    }
    assert(program@.take(i as int) =~= program@);
    out
}

} // verus!
