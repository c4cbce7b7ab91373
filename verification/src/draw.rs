//! Pictures made ready for a drawing surface in the format ARGB32 with premultiplied alpha.

use vstd::prelude::*;

verus! {

/// The first byte of the pixel that byte `i` belongs to.
pub open spec fn pixel_start(i: int) -> int {
    i - i % 4
}

/// Whether byte `i` is a colour of a whole pixel, that is, not its alpha and not one of up to
/// three bytes that are left over at the end.
pub open spec fn is_colour(data: Seq<u8>, i: int) -> bool {
    i % 4 != 3 && pixel_start(i) + 3 < data.len()
}

/// A colour scaled by an alpha, where 255 is opaque.
pub open spec fn scaled(colour: u8, alpha: u8) -> int {
    (colour * alpha) / 255
}

/// The pixels of `data` with each colour scaled by its pixel's alpha, which is the last of
/// the pixel's four bytes.
pub open spec fn premultiplied(data: Seq<u8>) -> Seq<u8> {
    Seq::new(
        data.len(),
        |i: int|
            if is_colour(data, i) {
                scaled(data[i], data[pixel_start(i) + 3]) as u8
            } else {
                data[i]
            },
    )
}

/// A scaled colour is a byte, and no larger than the colour or the alpha.
proof fn scaled_bounds(colour: u8, alpha: u8)
    ensures
        0 <= colour * alpha <= 255 * 255,
        0 <= scaled(colour, alpha) <= 255,
        scaled(colour, alpha) <= colour,
        scaled(colour, alpha) <= alpha,
{
    assert(0 <= colour * alpha <= 255 * 255) by (nonlinear_arith)
        requires
            0 <= colour <= 255,
            0 <= alpha <= 255,
    ;
    assert((colour * alpha) / 255 <= colour) by (nonlinear_arith)
        requires
            0 <= colour <= 255,
            0 <= alpha <= 255,
    ;
    assert((colour * alpha) / 255 <= alpha) by (nonlinear_arith)
        requires
            0 <= colour <= 255,
            0 <= alpha <= 255,
    ;
}

/// Scales each colour by its pixel's alpha.
pub fn premultiply(data: &Vec<u8>) -> (r: Vec<u8>)
    ensures
        r@ == premultiplied(data@),
{
    let n: usize = data.len();
    let mut r: Vec<u8> = Vec::new();
    for i in 0..n
        invariant
            n == data@.len(),
            r@ == premultiplied(data@).take(i as int),
    {
        let start: usize = i - i % 4;
        let byte: u8 = if i % 4 != 3 && n - start > 3 {
            let alpha: u8 = data[start + 3];
            proof {
                scaled_bounds(data@[i as int], alpha);
            }
            (data[i] as u32 * alpha as u32 / 255) as u8
        } else {
            data[i]
        };
        r.push(byte);
        assert(r@ =~= premultiplied(data@).take(i + 1));
    }
    assert(premultiplied(data@).take(n as int) =~= premultiplied(data@));
    r
}

/// Scaling keeps the number of bytes and every alpha, and leaves no colour above its pixel's
/// alpha, as premultiplied pixels have to be.
pub proof fn premultiplied_is_valid(data: Seq<u8>)
    ensures
        premultiplied(data).len() == data.len(),
        forall|i: int|
            0 <= i < data.len() && !is_colour(data, i) ==> #[trigger] premultiplied(data)[i]
                == data[i],
        forall|i: int|
            0 <= i < data.len() && is_colour(data, i) ==> #[trigger] premultiplied(data)[i]
                <= premultiplied(data)[pixel_start(i) + 3],
{
    assert forall|i: int| 0 <= i < data.len() && is_colour(data, i) implies #[trigger] premultiplied(
        data,
    )[i] <= premultiplied(data)[pixel_start(i) + 3] by {
        scaled_bounds(data[i], data[pixel_start(i) + 3]);
    }
}

/// An opaque pixel keeps its colours.
pub proof fn opaque_is_unchanged(data: Seq<u8>, i: int)
    requires
        0 <= i < data.len(),
        is_colour(data, i),
        data[pixel_start(i) + 3] == 255,
    ensures
        premultiplied(data)[i] == data[i],
{
}

/// A transparent pixel loses its colours.
pub proof fn transparent_is_black(data: Seq<u8>, i: int)
    requires
        0 <= i < data.len(),
        is_colour(data, i),
        data[pixel_start(i) + 3] == 0,
    ensures
        premultiplied(data)[i] == 0,
{
}

/// The `i32` with the bits of the `u32` `n`.
pub open spec fn as_signed(n: int) -> int {
    if n < 0x8000_0000 {
        n
    } else {
        n - 0x1_0000_0000
    }
}

/// `n` as a drawing surface takes it.
pub fn signed(n: u32) -> (r: i32)
    ensures
        r == as_signed(n as int),
{
    assert(n < 0x8000_0000u32 ==> (n as i32) as int == n as int) by (bit_vector);
    assert(n >= 0x8000_0000u32 ==> (n as i32) as int == n as int - 0x1_0000_0000int) by (bit_vector);
    n as i32
}

/// The bytes in a row of a picture that is `width` pixels wide.
pub fn stride(width: u32) -> (r: i32)
    requires
        width * 4 <= u32::MAX,
    ensures
        r == as_signed(width * 4),
{
    signed(width * 4)
}

/// Of every whole pixel the alpha stays, and each colour becomes the largest byte that is no
/// more than the colour times the alpha over 255.
pub proof fn pixels_are_premultiplied(data: Seq<u8>, pixel: int, colour: int)
    requires
        0 <= pixel,
        0 <= colour < 3,
        4 * pixel + 3 < data.len(),
    ensures
        premultiplied(data).len() == data.len(),
        premultiplied(data)[4 * pixel + 3] == data[4 * pixel + 3],
        255 * premultiplied(data)[4 * pixel + colour] <= data[4 * pixel + colour] * data[4 * pixel
            + 3] < 255 * (premultiplied(data)[4 * pixel + colour] + 1),
{
    let i = 4 * pixel + colour;
    assert(i % 4 == colour);
    assert(pixel_start(i) == 4 * pixel);
    scaled_bounds(data[i], data[4 * pixel + 3]);
    let product: int = data[i] * data[4 * pixel + 3];
    assert(255 * (product / 255) <= product < 255 * (product / 255 + 1));
}

/// Bytes at the end that make up no whole pixel are left as they are.
pub proof fn leftover_bytes_are_unchanged(data: Seq<u8>, i: int)
    requires
        4 * (data.len() as int / 4) <= i < data.len(),
    ensures
        premultiplied(data)[i] == data[i],
{
}

/// A number that is handed on as an `i32` is one, and the same up to whole turns of 32 bits.
pub proof fn signed_keeps_the_bits(n: int)
    requires
        0 <= n <= u32::MAX,
    ensures
        i32::MIN <= as_signed(n) <= i32::MAX,
        as_signed(n) == n || as_signed(n) + 0x1_0000_0000 == n,
{
}

} // verus!
