use vstd::prelude::*;

verus! {

/// `bytes` holds each of `xs` as two bytes, in order, all in the same byte
/// order: all little-endian or all big-endian.
pub open spec fn u16_bytes(bytes: Seq<u8>, xs: Seq<u16>) -> bool {
    &&& bytes.len() == 2 * xs.len()
    &&& {
        ||| forall|i: int| 0 <= i < xs.len() ==> #[trigger] xs[i] == bytes[2 * i] + 256 * bytes[2 * i + 1]
        ||| forall|i: int| 0 <= i < xs.len() ==> #[trigger] xs[i] == 256 * bytes[2 * i] + bytes[2 * i + 1]
    }
}

/// Calls `bytemuck::cast_slice::<u16, u8>` and copies the result: the bytes
/// of the values as they lie in memory, two per value, in the machine's byte
/// order. Which byte order that is, is not stated.
#[verifier::external_body]
fn cast_u16_slice(xs: &[u16]) -> (bytes: Vec<u8>)
    ensures
        u16_bytes(bytes@, xs@),
{
    bytemuck::cast_slice::<u16, u8>(xs).to_vec()
}

/// The bytes of the indices, as the GPU reads an index buffer of `u16`
/// indices.
pub fn index_bytes(indices: &Vec<u16>) -> (bytes: Vec<u8>)
    ensures
        u16_bytes(bytes@, indices@),
{
    cast_u16_slice(indices.as_slice())
}

} // verus!
