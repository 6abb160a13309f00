//! Packaging decoded raster images.
//!
//! Decoders hand back RGBA pixel rows; before the data is shared, the red
//! and blue channels are swapped into the in-memory order, and for sources
//! whose alpha is not premultiplied each color channel is multiplied by the
//! alpha.  The decoding itself happens outside the library; the byte-level
//! transformations and the packaging are verified here.

use vstd::prelude::*;

verus! {

/// The pixel layout of a packaged image.
#[derive(Clone, Copy, PartialEq, Eq, Structural, Debug)]
pub enum PixelFormat {
    /// Luminance only.
    K8,
    /// Luminance and alpha.
    KA8,
    RGB8,
    RGBA8,
}

/// A decoded image ready for sharing.
pub struct Image {
    pub width: u32,
    pub height: u32,
    pub format: PixelFormat,
    pub bytes: Vec<u8>,
}

/// A GIF signature: `GIF87a` or `GIF89a`.
pub open spec fn spec_is_gif(s: Seq<u8>) -> bool {
    s.len() >= 6 && s[0] == 71u8 && s[1] == 73u8 && s[2] == 70u8 && s[3] == 56u8 && (s[4] == 55u8
        || s[4] == 57u8) && s[5] == 97u8
}

/// Whether the buffer carries a GIF signature.
pub fn is_gif(buffer: &Vec<u8>) -> (r: bool)
    ensures
        r == spec_is_gif(buffer@),
{
    buffer.len() >= 6 && buffer[0] == 71 && buffer[1] == 73 && buffer[2] == 70 && buffer[3] == 56
        && (buffer[4] == 55 || buffer[4] == 57) && buffer[5] == 97
}

/// A JPEG signature.
pub open spec fn spec_is_jpeg(s: Seq<u8>) -> bool {
    s.len() >= 3 && s[0] == 255u8 && s[1] == 216u8 && s[2] == 255u8
}

/// Whether the buffer carries a JPEG signature.
pub fn is_jpeg(buffer: &Vec<u8>) -> (r: bool)
    ensures
        r == spec_is_jpeg(buffer@),
{
    buffer.len() >= 3 && buffer[0] == 255 && buffer[1] == 216 && buffer[2] == 255
}

/// One channel premultiplied by the alpha.
pub open spec fn spec_premul(x: u8, a: u8) -> u8 {
    ((x as int) * (a as int) / 255) as u8
}

/// Pixel data with the red and blue channels of each four-byte group
/// swapped.
pub open spec fn spec_byte_swapped(s: Seq<u8>) -> Seq<u8> {
    Seq::new(
        s.len(),
        |i: int|
            if i % 4 == 0 {
                s[i + 2]
            } else if i % 4 == 2 {
                s[i - 2]
            } else {
                s[i]
            },
    )
}

/// Pixel data with channels swapped and each color premultiplied by its
/// group's alpha.
pub open spec fn spec_swapped_premultiplied(s: Seq<u8>) -> Seq<u8> {
    Seq::new(
        s.len(),
        |i: int|
            {
                let g = i - (i % 4);
                if i % 4 == 0 {
                    spec_premul(s[g + 2], s[g + 3])
                } else if i % 4 == 1 {
                    spec_premul(s[g + 1], s[g + 3])
                } else if i % 4 == 2 {
                    spec_premul(s[g], s[g + 3])
                } else {
                    s[i]
                }
            },
    )
}

/// Swap the red and blue channels of each pixel.
pub fn byte_swap(data: &mut Vec<u8>)
    requires
        old(data)@.len() % 4 == 0,
    ensures
        final(data)@ == spec_byte_swapped(old(data)@),
{
    let n = data.len();
    let mut i: usize = 0;
    while i < n
        invariant
            n == data@.len(),
            n == old(data)@.len(),
            n % 4 == 0,
            i % 4 == 0,
            i <= n,
            forall|j: int| 0 <= j < i ==> data@[j] == spec_byte_swapped(old(data)@)[j],
            forall|j: int| i <= j < n ==> data@[j] == old(data)@[j],
        decreases n - i,
    {
        proof {
            assert((n - i) % 4 == 0) by (nonlinear_arith)
                requires
                    i % 4 == 0,
                    n % 4 == 0,
                    i <= n,
            ;
            assert(i + 4 <= n);
        }
        let b = data[i];
        let r = data[i + 2];
        data.set(i, r);
        data.set(i + 2, b);
        proof {
            assert forall|j: int| 0 <= j < i + 4 implies data@[j] == spec_byte_swapped(
                old(data)@,
            )[j] by {
                if i <= j < i + 4 {
                    assert(j % 4 == j - i) by (nonlinear_arith)
                        requires
                            i % 4 == 0,
                            i <= j < i + 4,
                    ;
                }
            }
        }
        i = i + 4;
    }
    proof {
        assert(data@ =~= spec_byte_swapped(old(data)@));
    }
}

/// Swap the red and blue channels and premultiply each color channel by
/// the pixel's alpha.
pub fn byte_swap_and_premultiply(data: &mut Vec<u8>)
    requires
        old(data)@.len() % 4 == 0,
    ensures
        final(data)@ == spec_swapped_premultiplied(old(data)@),
{
    let n = data.len();
    let mut i: usize = 0;
    while i < n
        invariant
            n == data@.len(),
            n == old(data)@.len(),
            n % 4 == 0,
            i % 4 == 0,
            i <= n,
            forall|j: int| 0 <= j < i ==> data@[j] == spec_swapped_premultiplied(old(data)@)[j],
            forall|j: int| i <= j < n ==> data@[j] == old(data)@[j],
        decreases n - i,
    {
        proof {
            assert((n - i) % 4 == 0) by (nonlinear_arith)
                requires
                    i % 4 == 0,
                    n % 4 == 0,
                    i <= n,
            ;
            assert(i + 4 <= n);
        }
        let r = data[i + 2];
        let g = data[i + 1];
        let b = data[i];
        let a = data[i + 3];
        proof {
            assert((r as int) * (a as int) <= 65025 && (g as int) * (a as int) <= 65025 && (
            b as int) * (a as int) <= 65025) by (nonlinear_arith)
                requires
                    r as int <= 255,
                    g as int <= 255,
                    b as int <= 255,
                    a as int <= 255,
            ;
        }
        data.set(i, (((r as u32) * (a as u32)) / 255) as u8);
        data.set(i + 1, (((g as u32) * (a as u32)) / 255) as u8);
        data.set(i + 2, (((b as u32) * (a as u32)) / 255) as u8);
        proof {
            assert forall|j: int| 0 <= j < i + 4 implies data@[j] == spec_swapped_premultiplied(
                old(data)@,
            )[j] by {
                if i <= j < i + 4 {
                    assert(j % 4 == j - i && j - (j % 4) == i) by (nonlinear_arith)
                        requires
                            i % 4 == 0,
                            i <= j < i + 4,
                    ;
                }
            }
        }
        i = i + 4;
    }
    proof {
        assert(data@ =~= spec_swapped_premultiplied(old(data)@));
    }
}

/// Package pixels decoded from a JPEG-signature buffer: a buffer that also
/// carries a GIF signature premultiplies, anything else only swaps.
pub fn finish_jpeg_decode(buffer: &Vec<u8>, data: Vec<u8>, width: u32, height: u32) -> (r: Image)
    requires
        data@.len() % 4 == 0,
    ensures
        r.width == width,
        r.height == height,
        r.format == PixelFormat::RGBA8,
        r.bytes@ == if spec_is_gif(buffer@) {
            spec_swapped_premultiplied(data@)
        } else {
            spec_byte_swapped(data@)
        },
{
    let mut data = data;
    if is_gif(buffer) {
        byte_swap_and_premultiply(&mut data);
    } else {
        byte_swap(&mut data);
    }
    Image { width, height, format: PixelFormat::RGBA8, bytes: data }
}

/// Package pixels from the general decoder, which never premultiplies.
pub fn finish_general_decode(data: Vec<u8>, width: u32, height: u32) -> (r: Image)
    requires
        data@.len() % 4 == 0,
    ensures
        r.width == width,
        r.height == height,
        r.format == PixelFormat::RGBA8,
        r.bytes@ == spec_swapped_premultiplied(data@),
{
    let mut data = data;
    byte_swap_and_premultiply(&mut data);
    Image { width, height, format: PixelFormat::RGBA8, bytes: data }
}

} // verus!
