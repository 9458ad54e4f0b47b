//! Little-endian encoding of addresses, as the jump patch embeds them.

use byteorder::{LittleEndian, WriteBytesExt};
use vstd::prelude::*;

verus! {

/// The `n` low bytes of `value`, least significant first.
pub open spec fn le_bytes(value: nat, n: nat) -> Seq<u8>
    decreases n,
{
    if n == 0 {
        Seq::empty()
    } else {
        seq![(value % 256) as u8] + le_bytes(value / 256, (n - 1) as nat)
    }
}

/// An encoding in `n` bytes is `n` bytes long.
pub proof fn lemma_le_bytes_len(value: nat, n: nat)
    ensures
        le_bytes(value, n).len() == n,
    decreases n,
{
    if n > 0 {
        lemma_le_bytes_len(value / 256, (n - 1) as nat);
    }
}

/// Eight bytes for `value`, through `byteorder`'s
/// `WriteBytesExt::write_u64::<LittleEndian>` on an empty `Vec<u8>`.
///
/// Trusted: the vector that comes back holds exactly the eight bytes of
/// `value`, least significant first. Writing into a `Vec` cannot fail.
#[verifier::external_body]
pub(crate) fn encode_u64(value: u64) -> (out: Vec<u8>)
    ensures
        out@ == le_bytes(value as nat, 8),
{
    let mut out: Vec<u8> = Vec::new();
    out.write_u64::<LittleEndian>(value).unwrap();
    out
}

/// Four bytes for `value`, through `byteorder`'s
/// `WriteBytesExt::write_u32::<LittleEndian>` on an empty `Vec<u8>`.
///
/// Trusted: the vector that comes back holds exactly the four bytes of
/// `value`, least significant first. Writing into a `Vec` cannot fail.
#[verifier::external_body]
pub(crate) fn encode_u32(value: u32) -> (out: Vec<u8>)
    ensures
        out@ == le_bytes(value as nat, 4),
{
    let mut out: Vec<u8> = Vec::new();
    out.write_u32::<LittleEndian>(value).unwrap();
    out
}

} // verus!
