//! The binary pixel-map encoding of an image: a short text header, then
//! three bytes for each pixel.

use vstd::prelude::*;
use crate::coord::{WIDTH, HEIGHT};
use crate::image::{Color, Image, pixel_count};

verus! {

/// The largest value of a colour channel.
pub const MAX_CHANNEL: usize = 255;

/// The ASCII digits of `n` in base ten, most significant first, without
/// leading zeros.
pub open spec fn decimal(n: nat) -> Seq<u8>
    decreases n,
{
    if n < 10 {
        seq![(0x30 + n) as u8]
    } else {
        decimal(n / 10).push((0x30 + n % 10) as u8)
    }
}

/// The number that a sequence of ASCII digits denotes in base ten.
pub open spec fn decimal_value(digits: Seq<u8>) -> nat
    decreases digits.len(),
{
    if digits.len() == 0 {
        0
    } else {
        (10 * decimal_value(digits.drop_last()) + (digits.last() - 0x30)) as nat
    }
}

/// The header of a binary pixel map: the magic number `P6`, the width and the
/// height in decimal, and the largest channel value, as the ASCII text
/// `P6\n<width> <height>\n255\n`.
pub open spec fn header(width: nat, height: nat) -> Seq<u8> {
    seq![0x50u8, 0x36u8, 0x0au8] + decimal(width) + seq![0x20u8] + decimal(height) + seq![0x0au8]
        + decimal(MAX_CHANNEL as nat) + seq![0x0au8]
}

/// One channel of a colour: 0 is red, 1 is green, anything else is blue.
pub open spec fn channel(color: Color, k: int) -> u8 {
    if k == 0 {
        color.r
    } else if k == 1 {
        color.g
    } else {
        color.b
    }
}

/// The pixels as raw bytes: red, green and blue of the first pixel, then of
/// the second, and so on.
pub open spec fn body(pixels: Seq<Color>) -> Seq<u8> {
    Seq::new(3 * pixels.len(), |i: int| channel(pixels[i / 3], i % 3))
}

/// The whole file for a `WIDTH` by `HEIGHT` image with the given pixels.
pub open spec fn ppm(pixels: Seq<Color>) -> Seq<u8> {
    header(WIDTH as nat, HEIGHT as nat) + body(pixels)
}

/// A decimal numeral is never empty, consists of digits only, and starts with
/// a zero only where the number is zero.
pub proof fn lemma_decimal_digits(n: nat)
    ensures
        decimal(n).len() >= 1,
        forall|i: int| 0 <= i < decimal(n).len() ==> 0x30 <= #[trigger] decimal(n)[i] <= 0x39,
        decimal(n)[0] == 0x30 <==> n == 0,
    decreases n,
{
    if n >= 10 {
        lemma_decimal_digits(n / 10);
    }
}

/// Reading a decimal numeral gives back the number it was written for.
pub proof fn lemma_decimal_round_trip(n: nat)
    ensures
        decimal_value(decimal(n)) == n,
    decreases n,
{
    if n < 10 {
        let d = decimal(n);
        assert(d.drop_last().len() == 0);
        assert(decimal_value(d.drop_last()) == 0);
    } else {
        lemma_decimal_round_trip(n / 10);
        let d = decimal(n);
        assert(d.drop_last() =~= decimal(n / 10));
    }
}

/// The header of a `WIDTH` by `HEIGHT` image is the text `P6\n203 203\n255\n`.
pub proof fn lemma_header_text()
    ensures
        header(WIDTH as nat, HEIGHT as nat) == seq![
            0x50u8, 0x36u8, 0x0au8, 0x32u8, 0x30u8, 0x33u8, 0x20u8, 0x32u8, 0x30u8, 0x33u8,
            0x0au8, 0x32u8, 0x35u8, 0x35u8, 0x0au8,
        ],
        header(WIDTH as nat, HEIGHT as nat).len() == 15,
{
    reveal_with_fuel(decimal, 3);
    assert(decimal(203) =~= seq![0x32u8, 0x30u8, 0x33u8]);
    assert(decimal(255) =~= seq![0x32u8, 0x35u8, 0x35u8]);
    assert(header(WIDTH as nat, HEIGHT as nat) =~= seq![
        0x50u8, 0x36u8, 0x0au8, 0x32u8, 0x30u8, 0x33u8, 0x20u8, 0x32u8, 0x30u8, 0x33u8,
        0x0au8, 0x32u8, 0x35u8, 0x35u8, 0x0au8,
    ]);
}

/// Appends the decimal numeral of `n` to `out`.
pub fn push_decimal(out: &mut Vec<u8>, n: usize)
    ensures
        final(out)@ == old(out)@ + decimal(n as nat),
    decreases n,
{
    if n >= 10 {
        push_decimal(out, n / 10);
    }
    out.push(0x30 + (n % 10) as u8);
    assert(final(out)@ =~= old(out)@ + decimal(n as nat));
}

/// The header of a pixel map of the given size.
pub fn ppm_header(width: usize, height: usize) -> (bytes: Vec<u8>)
    ensures
        bytes@ == header(width as nat, height as nat),
{
    let mut bytes: Vec<u8> = Vec::new();
    bytes.push(0x50);
    bytes.push(0x36);
    bytes.push(0x0a);
    push_decimal(&mut bytes, width);
    bytes.push(0x20);
    push_decimal(&mut bytes, height);
    bytes.push(0x0a);
    push_decimal(&mut bytes, MAX_CHANNEL);
    bytes.push(0x0a);
    assert(bytes@ =~= header(width as nat, height as nat));
    bytes
}

/// Encodes an image as a binary pixel map.
///
/// The result is the header for the image's size followed at once by the
/// pixels, three bytes each, row by row from the top; nothing follows the
/// last pixel.
pub fn encode_ppm(image: &Image) -> (bytes: Vec<u8>)
    requires
        image.wf(),
    ensures
        bytes@ == ppm(image@),
        bytes@.len() == header(WIDTH as nat, HEIGHT as nat).len() + 3 * WIDTH * HEIGHT,
        bytes@.subrange(0, header(WIDTH as nat, HEIGHT as nat).len() as int) == header(
            WIDTH as nat,
            HEIGHT as nat,
        ),
{
    let mut bytes = ppm_header(WIDTH, HEIGHT);
    let pixels = image.pixels();
    let ghost head = bytes@;
    let mut i: usize = 0;
    while i < pixels.len()
        invariant
            i <= pixels.len(),
            pixels@ == image@,
            pixels@.len() == pixel_count(),
            head == header(WIDTH as nat, HEIGHT as nat),
            bytes@.len() == head.len() + 3 * i,
            bytes@.subrange(0, head.len() as int) == head,
            forall|j: int| 0 <= j < 3 * i ==> bytes@[head.len() + j] == body(image@)[j],
        decreases pixels.len() - i,
    {
        let p = pixels[i];
        bytes.push(p.r);
        bytes.push(p.g);
        bytes.push(p.b);
        i += 1;
    }
    assert(bytes@ =~= ppm(image@));
    bytes
}

} // verus!
