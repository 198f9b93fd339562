//! The Mandelbrot render function: the viewport maps each sample to a
//! plane point `c`, and the escape iteration runs from `z0 = 0`.

use vstd::prelude::*;

use crate::fixed::{fx_mul, iabs, lemma_fx_mul_mag, Fx, FX_ONE};
use crate::rendering::{
    aspect_x_bits, aspect_y_bits, escape_count, fx_norm_sqr, iter_z, smooth_spec, viewport,
    Renderer,
};
use crate::sampling::Sample;

verus! {

/// Renders the Mandelbrot set: an affine viewport mapping derived once
/// from the centre, scale and raster size, and the shared escape
/// iteration with `z0 = 0` and `c` the mapped sample location.
pub struct MandelbrotRenderer {
    pub max_iterations: u64,
    pub offset_re: Fx,
    pub offset_im: Fx,
    pub scale_re: Fx,
    pub scale_im: Fx,
    pub width: u32,
    pub height: u32,
}

/// The plane point a sample maps to: the top-left offset plus the
/// continuous image coordinate times the per-pixel step, the imaginary
/// axis stepped downward (image row zero is the top edge).
pub open spec fn mapped_re(offset_re: int, scale_re: int, s: Sample) -> int {
    offset_re + fx_mul(s.pixel_x * FX_ONE + s.offset_x.bits, scale_re)
}

/// The imaginary part of the plane point a sample maps to.
pub open spec fn mapped_im(offset_im: int, scale_im: int, s: Sample) -> int {
    offset_im - fx_mul(s.pixel_y * FX_ONE + s.offset_y.bits, scale_im)
}

/// The escape value of the iteration from `z0` with constant `c`: the
/// smooth escape estimate when the budget is not exhausted, else the
/// interior sentinel, minus one.
pub open spec fn escape_value(z0r: int, z0i: int, cr: int, ci: int, max: int) -> int {
    let n = escape_count(z0r, z0i, cr, ci, max as nat);
    if n < max {
        let z = iter_z(z0r, z0i, cr, ci, n);
        smooth_spec(n as int, max, fx_norm_sqr(z.0, z.1))
    } else {
        -FX_ONE
    }
}

impl MandelbrotRenderer {
    /// A Mandelbrot renderer for the given viewport: the centre within
    /// two of the origin on each axis, the scale positive and at most
    /// four, the raster within a factor of two of square, and every
    /// count within 2^20 — the ranges in which the arithmetic of the
    /// iteration is exact.
    pub fn new(
        center_re: Fx,
        center_im: Fx,
        scale: Fx,
        max_iterations: u64,
        width: u32,
        height: u32,
    ) -> (f: MandelbrotRenderer)
        requires
            1 <= max_iterations <= 1048576,
            1 <= width <= 1048576,
            1 <= height <= 1048576,
            width <= 2 * height,
            height <= 2 * width,
            iabs(center_re.bits as int) <= 8589934592,
            iabs(center_im.bits as int) <= 8589934592,
            0 < scale.bits <= 17179869184,
        ensures
            f.wf(),
            f.max_iterations == max_iterations,
            f.width == width,
            f.height == height,
            f.offset_re.bits == center_re.bits - fx_mul(
                scale.bits as int,
                aspect_x_bits(width as int, height as int),
            ),
            f.offset_im.bits == center_im.bits + fx_mul(
                scale.bits as int,
                aspect_y_bits(width as int, height as int),
            ),
            f.scale_re.bits == crate::fixed::fx_div(
                2 * fx_mul(scale.bits as int, aspect_x_bits(width as int, height as int)),
                width * FX_ONE,
            ),
            f.scale_im.bits == crate::fixed::fx_div(
                2 * fx_mul(scale.bits as int, aspect_y_bits(width as int, height as int)),
                height * FX_ONE,
            ),
    {
        let (offset_re, offset_im, scale_re, scale_im) = viewport(
            center_re,
            center_im,
            scale,
            width,
            height,
        );
        MandelbrotRenderer {
            max_iterations,
            offset_re,
            offset_im,
            scale_re,
            scale_im,
            width,
            height,
        }
    }
}

impl Renderer for MandelbrotRenderer {
    open spec fn wf(&self) -> bool {
        &&& 1 <= self.max_iterations <= 1048576
        &&& 1 <= self.width <= 1048576
        &&& 1 <= self.height <= 1048576
        &&& iabs(self.offset_re.bits as int) <= 42949672960
        &&& iabs(self.offset_im.bits as int) <= 42949672960
        &&& 0 <= self.scale_re.bits
        &&& 0 <= self.scale_im.bits
        &&& self.scale_re.bits * (self.width + 1) <= 137438953472
        &&& self.scale_im.bits * (self.height + 1) <= 137438953472
    }

    open spec fn in_domain(&self, s: Sample) -> bool {
        &&& s.pixel_x < self.width
        &&& s.pixel_y < self.height
        &&& 0 <= s.offset_x.bits <= FX_ONE
        &&& 0 <= s.offset_y.bits <= FX_ONE
    }

    open spec fn render_spec(&self, s: Sample) -> int {
        escape_value(
            0,
            0,
            mapped_re(self.offset_re.bits as int, self.scale_re.bits as int, s),
            mapped_im(self.offset_im.bits as int, self.scale_im.bits as int, s),
            self.max_iterations as int,
        )
    }

    fn render(&self, sample: &Sample) -> (r: Fx)
    {
        let (x, y) = sample.location();
        proof {
            lemma_mapped_mul_bound(
                x.bits as int,
                self.scale_re.bits as int,
                self.width as int,
            );
            lemma_mapped_mul_bound(
                y.bits as int,
                self.scale_im.bits as int,
                self.height as int,
            );
        }
        let c_re = self.offset_re.add(x.mul(self.scale_re));
        let c_im = self.offset_im.sub(y.mul(self.scale_im));
        let (i, zr, zi) = crate::rendering::escape_iterate(
            Fx::zero(),
            Fx::zero(),
            c_re,
            c_im,
            self.max_iterations,
        );
        if i < self.max_iterations {
            proof {
                lemma_fx_mul_mag(
                    zr.bits as int,
                    zr.bits as int,
                    412316860416,
                    412316860416,
                    39582418599936,
                );
                lemma_fx_mul_mag(
                    zi.bits as int,
                    zi.bits as int,
                    412316860416,
                    412316860416,
                    39582418599936,
                );
            }
            let nsq = Fx { bits: zr.mul(zr).bits + zi.mul(zi).bits };
            crate::rendering::smooth_value(i, self.max_iterations, nsq)
        } else {
            Fx { bits: -FX_ONE }
        }
    }
}

/// The viewport step applied to an in-raster coordinate stays within 32:
/// the step times the raster size is bounded by the viewport contract.
pub proof fn lemma_mapped_mul_bound(x: int, step: int, dim: int)
    requires
        0 <= x <= (dim + 1) * FX_ONE,
        0 <= step,
        1 <= dim <= 1048576,
        step * (dim + 1) <= 137438953472,
    ensures
        0 <= fx_mul(x, step) <= 137438953472,
{
    crate::fixed::lemma_fx_mul_nonneg(x, step);
    assert(((dim + 1) * FX_ONE) * step <= 137438953472 * FX_ONE) by (nonlinear_arith)
        requires
            0 <= step,
            step * (dim + 1) <= 137438953472,
            1 <= dim,
            FX_ONE == 4294967296,
    ;
    lemma_fx_mul_mag(x, step, (dim + 1) * FX_ONE, step, 137438953472);
}

} // verus!
