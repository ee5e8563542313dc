//! Color encodings and their wire format: each color serializes to a fixed
//! number of bytes, most significant byte first.

use vstd::prelude::*;
use embedded_graphics_core::pixelcolor::raw::ToBytes;
use embedded_graphics_core::pixelcolor::Rgb565;

verus! {

/// Bits per pixel of a color encoding, as the controller's pixel-format
/// command names it.
#[derive(Clone, Copy, Debug, PartialEq, Eq, Structural)]
pub enum BitsPerPixel {
    Sixteen,
    Eighteen,
}

/// A color that has a fixed-width wire representation.
pub trait WireColor: Sized {
    /// The channel values are in range for the encoding.
    spec fn valid(&self) -> bool;

    /// The bytes that carry this color on the bus.
    spec fn wire(&self) -> Seq<u8>;

    /// The encoding's depth.
    spec fn depth() -> BitsPerPixel;

    fn wire_bytes(&self) -> (r: Vec<u8>)
        requires
            self.valid(),
        ensures
            r@ == self.wire(),
    ;

    fn bits_per_pixel() -> (r: BitsPerPixel)
        ensures
            r == Self::depth(),
    ;
}

/// A 16-bit color: 5 bits of red, 6 of green, 5 of blue.
#[derive(Clone, Copy, Debug, PartialEq, Eq, Structural)]
pub struct Color565 {
    pub r: u8,
    pub g: u8,
    pub b: u8,
}

/// An 18-bit color: 6 bits for each of red, green and blue.
#[derive(Clone, Copy, Debug, PartialEq, Eq, Structural)]
pub struct Color666 {
    pub r: u8,
    pub g: u8,
    pub b: u8,
}

/// The 16-bit word of a 5-6-5 color: red in the top five bits, blue in the low five.
pub open spec fn rgb565_word(r: u8, g: u8, b: u8) -> u16 {
    ((r as u16) << 11u16) | ((g as u16) << 5u16) | (b as u16)
}

/// The wire bytes of a 5-6-5 color: its word, high byte first.
pub open spec fn rgb565_bytes(c: Color565) -> Seq<u8> {
    let w = rgb565_word(c.r, c.g, c.b);
    seq![(w >> 8u16) as u8, (w & 0xffu16) as u8]
}

/// Reads the channels back from two big-endian bytes of a 5-6-5 word.
pub open spec fn rgb565_decode(hi: u8, lo: u8) -> (u8, u8, u8) {
    let w = ((hi as u16) << 8u16) | (lo as u16);
    ((w >> 11u16) as u8, ((w >> 5u16) & 0x3fu16) as u8, (w & 0x1fu16) as u8)
}

/// The wire bytes of an 18-bit color: one byte per channel, each value in
/// the upper six bits.
pub open spec fn rgb666_bytes(c: Color666) -> Seq<u8> {
    seq![(c.r << 2u8) as u8, (c.g << 2u8) as u8, (c.b << 2u8) as u8]
}

impl Color565 {
    pub open spec fn wf(self) -> bool {
        self.r < 32 && self.g < 64 && self.b < 32
    }

    /// Builds a color; bits above each channel's width are dropped.
    pub fn new(r: u8, g: u8, b: u8) -> (c: Self)
        ensures
            c.wf(),
            c.r == r & 0x1f,
            c.g == g & 0x3f,
            c.b == b & 0x1f,
    {
        let c = Color565 { r: r & 0x1f, g: g & 0x3f, b: b & 0x1f };
        assert(r & 0x1f < 32 && g & 0x3f < 64 && b & 0x1f < 32) by (bit_vector);
        c
    }
}

impl Color666 {
    pub open spec fn wf(self) -> bool {
        self.r < 64 && self.g < 64 && self.b < 64
    }

    /// Builds a color; bits above each channel's six are dropped.
    pub fn new(r: u8, g: u8, b: u8) -> (c: Self)
        ensures
            c.wf(),
            c.r == r & 0x3f,
            c.g == g & 0x3f,
            c.b == b & 0x3f,
    {
        let c = Color666 { r: r & 0x3f, g: g & 0x3f, b: b & 0x3f };
        assert(r & 0x3f < 64 && g & 0x3f < 64 && b & 0x3f < 64) by (bit_vector);
        c
    }
}

/// Relies on embedded-graphics-core's `Rgb565::new`, which packs red, green and
/// blue at bits 11, 5 and 0 of a `u16`, and on its `ToBytes::to_be_bytes`,
/// which returns that word high byte first.
#[verifier::external_body]
fn rgb565_be_bytes(r: u8, g: u8, b: u8) -> (out: [u8; 2])
    requires
        r < 32,
        g < 64,
        b < 32,
    ensures
        out@ == seq![(rgb565_word(r, g, b) >> 8u16) as u8, (rgb565_word(r, g, b) & 0xffu16) as u8],
{
    ToBytes::to_be_bytes(Rgb565::new(r, g, b))
}

/// The two wire bytes of a 16-bit color.
pub fn rgb565_to_bytes(pixel: Color565) -> (out: [u8; 2])
    requires
        pixel.wf(),
    ensures
        out@ == rgb565_bytes(pixel),
{
    rgb565_be_bytes(pixel.r, pixel.g, pixel.b)
}

/// The three wire bytes of an 18-bit color, each channel shifted into the
/// upper six bits of its byte.
pub fn rgb666_to_bytes(pixel: Color666) -> (out: [u8; 3])
    requires
        pixel.wf(),
    ensures
        out@ == rgb666_bytes(pixel),
{
    let out = [pixel.r << 2u8, pixel.g << 2u8, pixel.b << 2u8];
    assert(out@ =~= rgb666_bytes(pixel));
    out
}

impl WireColor for Color565 {
    open spec fn valid(&self) -> bool {
        self.wf()
    }

    open spec fn wire(&self) -> Seq<u8> {
        rgb565_bytes(*self)
    }

    open spec fn depth() -> BitsPerPixel {
        BitsPerPixel::Sixteen
    }

    fn wire_bytes(&self) -> (r: Vec<u8>) {
        let a = rgb565_to_bytes(*self);
        let r = vec![a[0], a[1]];
        assert(r@ =~= a@);
        r
    }

    fn bits_per_pixel() -> (r: BitsPerPixel) {
        BitsPerPixel::Sixteen
    }
}

impl WireColor for Color666 {
    open spec fn valid(&self) -> bool {
        self.wf()
    }

    open spec fn wire(&self) -> Seq<u8> {
        rgb666_bytes(*self)
    }

    open spec fn depth() -> BitsPerPixel {
        BitsPerPixel::Eighteen
    }

    fn wire_bytes(&self) -> (r: Vec<u8>) {
        let a = rgb666_to_bytes(*self);
        let r = vec![a[0], a[1], a[2]];
        assert(r@ =~= a@);
        r
    }

    fn bits_per_pixel() -> (r: BitsPerPixel) {
        BitsPerPixel::Eighteen
    }
}

/// Reading the two wire bytes of a 16-bit color back as a big-endian word
/// gives its red, green and blue values unchanged.
pub proof fn lemma_rgb565_round_trip(c: Color565)
    requires
        c.wf(),
    ensures
        rgb565_bytes(c).len() == 2,
        rgb565_decode(rgb565_bytes(c)[0], rgb565_bytes(c)[1]) == (c.r, c.g, c.b),
{
    let (r, g, b) = (c.r, c.g, c.b);
    let hi = (rgb565_word(r, g, b) >> 8u16) as u8;
    let lo = (rgb565_word(r, g, b) & 0xffu16) as u8;
    assert(((((((((r as u16) << 11u16) | ((g as u16) << 5u16) | (b as u16)) >> 8u16) as u8) as u16)
        << 8u16) | (((((r as u16) << 11u16) | ((g as u16) << 5u16) | (b as u16)) & 0xffu16) as u8
        as u16)) == ((r as u16) << 11u16) | ((g as u16) << 5u16) | (b as u16)) by (bit_vector)
        requires
            r < 32,
            g < 64,
            b < 32,
    ;
    let w = rgb565_word(r, g, b);
    assert(((w >> 11u16) as u8) == r && (((w >> 5u16) & 0x3fu16) as u8) == g && ((w & 0x1fu16)
        as u8) == b) by (bit_vector)
        requires
            r < 32,
            g < 64,
            b < 32,
            w == ((r as u16) << 11u16) | ((g as u16) << 5u16) | (b as u16),
    ;
}

/// Every wire byte of an 18-bit color has its two low bits clear, and its
/// upper six bits hold the channel value.
pub proof fn lemma_rgb666_padding(c: Color666)
    requires
        c.wf(),
    ensures
        rgb666_bytes(c).len() == 3,
        forall|i: int| 0 <= i < 3 ==> #[trigger] rgb666_bytes(c)[i] & 3u8 == 0,
        rgb666_bytes(c)[0] >> 2u8 == c.r,
        rgb666_bytes(c)[1] >> 2u8 == c.g,
        rgb666_bytes(c)[2] >> 2u8 == c.b,
{
    let (r, g, b) = (c.r, c.g, c.b);
    assert(((r << 2u8) as u8) & 3u8 == 0 && ((g << 2u8) as u8) & 3u8 == 0 && ((b << 2u8) as u8)
        & 3u8 == 0) by (bit_vector);
    assert(((r << 2u8) as u8) >> 2u8 == r && ((g << 2u8) as u8) >> 2u8 == g && ((b << 2u8) as u8)
        >> 2u8 == b) by (bit_vector)
        requires
            r < 64,
            g < 64,
            b < 64,
    ;
}

} // verus!
