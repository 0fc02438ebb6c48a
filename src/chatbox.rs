//! Framing of the chat-box messages: OSC strings.
use vstd::prelude::*;

verus! {

/// Number of zero bytes that end an OSC string of `len` bytes: at least one,
/// and enough to reach a multiple of four.
pub open spec fn osc_padding(len: int) -> int {
    4 - len % 4
}

/// Appends `s` to `buf` as an OSC string: the bytes, then zeros up to the
/// next multiple of four bytes, at least one.
pub fn osc_str(buf: &mut Vec<u8>, s: &[u8])
    requires
        old(buf)@.len() + s@.len() + 4 <= usize::MAX,
    ensures
        final(buf)@ == old(buf)@ + s@ + Seq::new(
            osc_padding((old(buf)@.len() + s@.len()) as int) as nat,
            |k: int| 0u8,
        ),
{
    let ghost start = buf@;
    let mut k: usize = 0;
    while k < s.len()
        invariant
            k <= s@.len(),
            buf@ == start + s@.subrange(0, k as int),
            start.len() + s@.len() + 4 <= usize::MAX,
        decreases s@.len() - k,
    {
        buf.push(s[k]);
        assert(s@.subrange(0, k + 1) =~= s@.subrange(0, k as int).push(s@[k as int]));
        assert(start + s@.subrange(0, k + 1) =~= (start + s@.subrange(0, k as int)).push(s@[k as int]));
        k = k + 1;
    }
    assert(s@.subrange(0, s@.len() as int) =~= s@);
    let ghost body = buf@;
    let pad: usize = 4 - buf.len() % 4;
    let mut m: usize = 0;
    while m < pad
        invariant
            m <= pad,
            pad == osc_padding(body.len() as int),
            buf@ == body + Seq::new(m as nat, |k: int| 0u8),
        decreases pad - m,
    {
        buf.push(0);
        assert(body + Seq::new((m + 1) as nat, |k: int| 0u8) =~= (body + Seq::new(
            m as nat,
            |k: int| 0u8,
        )).push(0u8));
        m = m + 1;
    }
}

} // verus!
