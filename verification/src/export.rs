use vstd::prelude::*;

use crate::canvas::Canvas;
use crate::values::Color;

verus! {

/// An image of the `image` crate, eight bits to each of red, green, blue and
/// alpha. Verus sees nothing of what it holds.
#[verifier::external_body]
pub struct Picture {
    inner: image::ImageBuffer<image::Rgba<u8>, Vec<u8>>,
}

/// The samples of a picture: red, green, blue and alpha of each pixel, pixel
/// after pixel, row after row from the top.
pub uninterp spec fn picture_samples(picture: Picture) -> Seq<u8>;

/// The samples that the pixels `pixels` give a picture.
pub open spec fn samples_of(pixels: Seq<Color>) -> Seq<u8> {
    Seq::new(
        4 * pixels.len(),
        |i: int|
            if i % 4 == 0 {
                pixels[i / 4].r
            } else if i % 4 == 1 {
                pixels[i / 4].g
            } else if i % 4 == 2 {
                pixels[i / 4].b
            } else {
                pixels[i / 4].a
            },
    )
}

/// The four channels of the pixel at column `x` of row `y`.
pub fn channels(canvas: &Canvas, x: u32, y: u32) -> (c: [u8; 4])
    requires
        x < canvas.spec_width(),
        y < canvas.spec_height(),
    ensures
        y * canvas.spec_width() + x < canvas@.len(),
        c@ == seq![
            canvas@[y * canvas.spec_width() + x].r,
            canvas@[y * canvas.spec_width() + x].g,
            canvas@[y * canvas.spec_width() + x].b,
            canvas@[y * canvas.spec_width() + x].a,
        ],
{
    let p = canvas.pixel(x as usize, y as usize);
    let c = [p.r, p.g, p.b, p.a];
    assert(c@ =~= seq![p.r, p.g, p.b, p.a]);
    c
}

/// Whether a picture can hold the pixels of `canvas`: each side fits in
/// `u32`, the samples of one row can be counted in `usize`, and a vector can
/// hold the samples of all rows.
pub open spec fn exportable(canvas: Canvas) -> bool {
    &&& canvas.spec_width() <= u32::MAX
    &&& canvas.spec_height() <= u32::MAX
    &&& 4 * canvas.spec_width() <= usize::MAX
    &&& 4 * canvas.spec_width() * canvas.spec_height() <= isize::MAX
}

/// `image::ImageBuffer::from_fn`, with the size and the pixels of `canvas`:
/// the pixel of the picture at each place has the channels that the canvas
/// has there. `from_fn` counts the samples in `usize`, first those of a row,
/// then those of all rows, and panics where either count overflows or where
/// a vector cannot hold them: `requires` admits no such canvas.
#[verifier::external_body]
fn picture_from_canvas(canvas: &Canvas, width: u32, height: u32) -> (picture: Picture)
    requires
        width == canvas.spec_width(),
        height == canvas.spec_height(),
        4 * width <= usize::MAX,
        4 * width * height <= isize::MAX,
    ensures
        picture_samples(picture) == samples_of(canvas@),
{
    Picture {
        inner: image::ImageBuffer::from_fn(
            width,
            height,
            |x, y| image::Rgba(channels(canvas, x, y)),
        ),
    }
}

/// `image::ImageBuffer::into_raw`: the samples of the picture.
#[verifier::external_body]
fn picture_into_samples(picture: Picture) -> (samples: Vec<u8>)
    ensures
        samples@ == picture_samples(picture),
{
    picture.inner.into_raw()
}

/// The samples of the canvas as an encoder takes them: red, green, blue and
/// alpha of each pixel, row after row, as a picture of the size of the
/// canvas holds them. None where no picture can hold the canvas.
pub fn export(canvas: &Canvas) -> (r: Option<Vec<u8>>)
    ensures
        r is Some <==> exportable(*canvas),
        r matches Some(samples) ==> samples@ == samples_of(canvas@),
{
    let w = canvas.width();
    let h = canvas.height();
    if w as u128 > u32::MAX as u128 || h as u128 > u32::MAX as u128 {
        return None;
    }
    if 4 * (w as u128) > usize::MAX as u128 {
        return None;
    }
    assert(4 * (w as u128) * (h as u128) <= 0x4_0000_0000_0000_0000) by (nonlinear_arith)
        requires
            w <= 0xffff_ffff,
            h <= 0xffff_ffff,
    ;
    let samples: u128 = 4 * (w as u128) * (h as u128);
    if samples > isize::MAX as u128 {
        return None;
    }
    let picture = picture_from_canvas(canvas, w as u32, h as u32);
    Some(picture_into_samples(picture))
}

} // verus!
