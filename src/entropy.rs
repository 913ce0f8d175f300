use vstd::prelude::*;

verus! {

/// The number whose little-endian bytes are `b`.
pub open spec fn le_u32_spec(b: Seq<u8>) -> int {
    b[0] + 256 * b[1] + 65536 * b[2] + 16777216 * b[3]
}

/// Reads four bytes as a little-endian `u32`.
pub fn le_u32(b: [u8; 4]) -> (r: u32)
    ensures
        r == le_u32_spec(b@),
{
    b[0] as u32 + b[1] as u32 * 256 + b[2] as u32 * 65536 + b[3] as u32 * 16777216
}

/// A random word from the four bytes that the source drew, little-endian; 0 where
/// no source is installed, so that a caller never sees a fault.
pub fn random(drawn: Option<[u8; 4]>) -> (r: u32)
    ensures
        r == match drawn {
            Some(b) => le_u32_spec(b@),
            None => 0,
        },
{
    match drawn {
        Some(b) => le_u32(b),
        None => 0,
    }
}

/// Fills `dst` with the bytes that the source drew; where no source is installed
/// `dst` is left as it was.
pub fn esp_fill_random(dst: &mut Vec<u8>, drawn: Option<&Vec<u8>>)
    requires
        drawn is Some ==> drawn->Some_0@.len() == old(dst)@.len(),
    ensures
        final(dst)@ == match drawn {
            Some(d) => d@,
            None => old(dst)@,
        },
{
    match drawn {
        Some(d) => {
            let mut i: usize = 0;
            while i < dst.len()
                invariant
                    i <= dst@.len(),
                    dst@.len() == d@.len(),
                    forall|j: int| 0 <= j < i ==> #[trigger] dst@[j] == d@[j],
                decreases dst@.len() - i,
            {
                dst[i] = d[i];
                i = i + 1;
            }
            assert(dst@ =~= d@);
        },
        None => {},
    }
}

} // verus!
