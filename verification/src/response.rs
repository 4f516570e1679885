//! The canned response: a fixed, request-independent byte sequence sent to
//! every client whose request completes. The declared `Content-Length` and
//! the mixed line terminators are reproduced as-is; the constant is treated
//! as an opaque sequence of bytes, not as structured HTTP.

use vstd::prelude::*;

verus! {

/// Number of bytes in the canned response.
pub const RESPONSE_LEN: usize = 69;

/// The canned response, byte for byte:
/// `"HTTP/1.1 200 OK\r\nContent-Length: 12\nConnection: close\r\n\r\nHello world!"`.
pub open spec fn response_bytes() -> Seq<u8> {
    seq![
        72u8, 84u8, 84u8, 80u8, 47u8, 49u8, 46u8, 49u8, 32u8, 50u8, 48u8, 48u8, 32u8, 79u8,
        75u8, 13u8, 10u8,
        67u8, 111u8, 110u8, 116u8, 101u8, 110u8, 116u8, 45u8, 76u8, 101u8, 110u8, 103u8,
        116u8, 104u8, 58u8, 32u8, 49u8, 50u8, 10u8,
        67u8, 111u8, 110u8, 110u8, 101u8, 99u8, 116u8, 105u8, 111u8, 110u8, 58u8, 32u8,
        99u8, 108u8, 111u8, 115u8, 101u8, 13u8, 10u8, 13u8, 10u8,
        72u8, 101u8, 108u8, 108u8, 111u8, 32u8, 119u8, 111u8, 114u8, 108u8, 100u8, 33u8,
    ]
}

pub proof fn lemma_response_len()
    ensures
        response_bytes().len() == RESPONSE_LEN,
{
}

/// Builds the canned response as a vector of bytes.
pub fn canned_response() -> (v: Vec<u8>)
    ensures
        v@ == response_bytes(),
{
    let v: Vec<u8> = vec![
        72u8, 84u8, 84u8, 80u8, 47u8, 49u8, 46u8, 49u8, 32u8, 50u8, 48u8, 48u8, 32u8, 79u8,
        75u8, 13u8, 10u8,
        67u8, 111u8, 110u8, 116u8, 101u8, 110u8, 116u8, 45u8, 76u8, 101u8, 110u8, 103u8,
        116u8, 104u8, 58u8, 32u8, 49u8, 50u8, 10u8,
        67u8, 111u8, 110u8, 110u8, 101u8, 99u8, 116u8, 105u8, 111u8, 110u8, 58u8, 32u8,
        99u8, 108u8, 111u8, 115u8, 101u8, 13u8, 10u8, 13u8, 10u8,
        72u8, 101u8, 108u8, 108u8, 111u8, 32u8, 119u8, 111u8, 114u8, 108u8, 100u8, 33u8,
    ];
    proof {
        assert(v@ =~= response_bytes());
    }
    v
}

} // verus!
