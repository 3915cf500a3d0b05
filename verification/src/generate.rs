//! Code generation: turning a checked spec into source text.

pub mod cpp;

use vstd::prelude::*;

verus! {

/// `n` space characters.
pub open spec fn spaces(n: nat) -> Seq<char>
    decreases n,
{
    if n == 0 {
        Seq::empty()
    } else {
        spaces((n - 1) as nat).push(' ')
    }
}

/// Appends `padding` space characters to the buffer.
pub fn left_pad(padding: usize, buffer: &mut Vec<char>)
    ensures
        final(buffer)@ == old(buffer)@ + spaces(padding as nat),
{
    let mut i: usize = 0;
    while i < padding
        invariant
            i <= padding,
            buffer@ == old(buffer)@ + spaces(i as nat),
        decreases padding - i,
    {
        buffer.push(' ');
        i += 1;
    }
}

} // verus!
