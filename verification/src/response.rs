//! The bytes of an answer: the status line, the length of the body, and
//! the body.

use vstd::prelude::*;

verus! {

/// The status line of an answer that carries what was asked for:
/// `HTTP/1.0 200 OK`.
pub const STATUS_OK: [u8; 15] = [
    0x48,
    0x54,
    0x54,
    0x50,
    0x2F,
    0x31,
    0x2E,
    0x30,
    0x20,
    0x32,
    0x30,
    0x30,
    0x20,
    0x4F,
    0x4B,
];

/// The status line of an answer to a request for nothing that is served:
/// `HTTP/1.0 400 NOT FOUND`.
pub const STATUS_NOT_FOUND: [u8; 22] = [
    0x48,
    0x54,
    0x54,
    0x50,
    0x2F,
    0x31,
    0x2E,
    0x30,
    0x20,
    0x34,
    0x30,
    0x30,
    0x20,
    0x4E,
    0x4F,
    0x54,
    0x20,
    0x46,
    0x4F,
    0x55,
    0x4E,
    0x44,
];

/// What stands between the status line and the length: a line break and
/// `Content-Length: `.
pub const LENGTH_FIELD: [u8; 18] = [
    0x0D,
    0x0A,
    0x43,
    0x6F,
    0x6E,
    0x74,
    0x65,
    0x6E,
    0x74,
    0x2D,
    0x4C,
    0x65,
    0x6E,
    0x67,
    0x74,
    0x68,
    0x3A,
    0x20,
];

/// What stands between the length and the body: two line breaks.
pub const HEAD_END: [u8; 4] = [0x0D, 0x0A, 0x0D, 0x0A];

/// The decimal digits of `n`, highest first, with no leading zero.
pub open spec fn spec_decimal(n: nat) -> Seq<u8>
    decreases n,
{
    if n < 10 {
        seq![(0x30 + n) as u8]
    } else {
        spec_decimal(n / 10).push((0x30 + n % 10) as u8)
    }
}

/// The answer with the status line `status` and the body `body`.
pub open spec fn spec_response(status: Seq<u8>, body: Seq<u8>) -> Seq<u8> {
    status + LENGTH_FIELD@ + spec_decimal(body.len()) + HEAD_END@ + body
}

/// The decimal digits of `n`, highest first, with no leading zero.
pub fn decimal(n: usize) -> (digits: Vec<u8>)
    ensures
        digits@ == spec_decimal(n as nat),
    decreases n,
{
    if n < 10 {
        let mut digits: Vec<u8> = Vec::new();
        digits.push(0x30 + n as u8);
        assert(digits@ =~= spec_decimal(n as nat));
        digits
    } else {
        let mut digits = decimal(n / 10);
        digits.push(0x30 + (n % 10) as u8);
        digits
    }
}

/// The answer with the status line `status` and the body `body`.
pub fn response(status: &[u8], body: &[u8]) -> (bytes: Vec<u8>)
    ensures
        bytes@ == spec_response(status@, body@),
{
    let digits = decimal(body.len());
    let mut bytes: Vec<u8> = Vec::new();
    bytes.extend_from_slice(status);
    bytes.extend_from_slice(LENGTH_FIELD.as_slice());
    bytes.extend_from_slice(digits.as_slice());
    bytes.extend_from_slice(HEAD_END.as_slice());
    bytes.extend_from_slice(body);
    assert(bytes@ =~= spec_response(status@, body@));
    bytes
}

} // verus!
