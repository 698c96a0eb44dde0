//! Pixels as bytes, for an encoder that takes a flat buffer: four bytes per
//! pixel, red first and alpha last, pixel after pixel.

use vstd::prelude::*;

verus! {

/// The bytes of a sequence of pixels: byte `i` is channel `i % 4` of pixel
/// `i / 4`.
pub open spec fn bytes_of(elements: Seq<[u8; 4]>) -> Seq<u8> {
    Seq::new(4 * elements.len(), |i: int| elements[i / 4][i % 4])
}

/// Writes the channels of each pixel out in order, pixel after pixel.
pub fn elements_as_bytes(elements: &[[u8; 4]]) -> (r: Vec<u8>)
    ensures
        r@ == bytes_of(elements@),
{
    let mut bytes: Vec<u8> = Vec::new();
    let mut i: usize = 0;
    while i < elements.len()
        invariant
            0 <= i <= elements@.len(),
            bytes@.len() == 4 * i,
            forall|k: int| 0 <= k < 4 * i ==> #[trigger] bytes@[k] == elements@[k / 4][k % 4],
        decreases elements@.len() - i,
    {
        let pixel: [u8; 4] = elements[i];
        bytes.push(pixel[0]);
        bytes.push(pixel[1]);
        bytes.push(pixel[2]);
        bytes.push(pixel[3]);
        i = i + 1;
    }
    assert(bytes@ =~= bytes_of(elements@));
    bytes
}

} // verus!
