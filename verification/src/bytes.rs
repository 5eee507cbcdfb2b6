//! Numbers as bytes.
use vstd::prelude::*;

verus! {

/// The four bytes of `n`, high byte first.
#[verifier::opaque]
pub open spec fn be32(n: int) -> Seq<u8> {
    seq![
        ((n / 0x100_0000) % 0x100) as u8,
        ((n / 0x1_0000) % 0x100) as u8,
        ((n / 0x100) % 0x100) as u8,
        (n % 0x100) as u8,
    ]
}

/// The number whose bytes stand at `i`, high byte first.
pub open spec fn be32_at(s: Seq<u8>, i: int) -> int {
    s[i] * 0x100_0000 + s[i + 1] * 0x1_0000 + s[i + 2] * 0x100 + s[i + 3]
}

/// A number can be read back from its bytes.
pub proof fn lemma_be32(n: int)
    requires
        0 <= n <= u32::MAX,
    ensures
        be32_at(be32(n), 0) == n,
{
    reveal(be32);
}

/// Four bytes are four.
pub broadcast proof fn lemma_be32_len(n: int)
    ensures
        #[trigger] be32(n).len() == 4,
{
    reveal(be32);
}

} // verus!
