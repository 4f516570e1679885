//! Detection of the fixed 4-byte request terminator (CR LF CR LF).

use vstd::prelude::*;

verus! {

/// The four bytes ending at position `n` of `s` are CR LF CR LF.
/// False whenever `n < 4`.
pub open spec fn terminator_at(s: Seq<u8>, n: int) -> bool {
    &&& 4 <= n <= s.len()
    &&& s[n - 4] == 13u8
    &&& s[n - 3] == 10u8
    &&& s[n - 2] == 13u8
    &&& s[n - 1] == 10u8
}

/// The whole sequence ends with CR LF CR LF.
pub open spec fn ends_with_terminator(s: Seq<u8>) -> bool {
    terminator_at(s, s.len() as int)
}

/// Decides whether the prefix of `buffer` of length `n` ends with the
/// terminator: true iff the 4 bytes ending at position `n` equal
/// CR LF CR LF, and false whenever `n < 4`.
pub fn detect(buffer: &[u8], n: usize) -> (r: bool)
    requires
        n <= buffer@.len(),
    ensures
        r == terminator_at(buffer@, n as int),
{
    if n < 4 {
        return false;
    }
    buffer[n - 4] == 13 && buffer[n - 3] == 10 && buffer[n - 2] == 13 && buffer[n - 1] == 10
}

} // verus!
