//! The Julia render function: the viewport maps each sample to the
//! starting point `z0`, and the escape iteration runs with a fixed
//! constant `c`.

use vstd::prelude::*;

use crate::fixed::{fx_mul, iabs, lemma_fx_mul_mag, Fx, FX_ONE};
use crate::rendering::mandelbrot::{escape_value, lemma_mapped_mul_bound, mapped_im, mapped_re};
use crate::rendering::{aspect_x_bits, aspect_y_bits, viewport, Renderer};
use crate::sampling::Sample;

verus! {

/// Renders a Julia-family fractal: the same affine viewport mapping and
/// escape iteration as the Mandelbrot renderer, but the mapped sample
/// location is the iteration's starting point and `c` is a fixed
/// constant of the set.
pub struct JuliaRenderFunction {
    pub c_re: Fx,
    pub c_im: Fx,
    pub offset_re: Fx,
    pub offset_im: Fx,
    pub scale_re: Fx,
    pub scale_im: Fx,
    pub max_iterations: usize,
    pub width: u32,
    pub height: u32,
}

impl JuliaRenderFunction {
    /// A Julia renderer for the given set constant and viewport, in the
    /// same ranges as the Mandelbrot renderer; the set constant lies
    /// within two of the origin on each axis.
    pub fn new(
        c_re: Fx,
        c_im: Fx,
        center_re: Fx,
        center_im: Fx,
        scale: Fx,
        max_iterations: usize,
        width: u32,
        height: u32,
    ) -> (f: JuliaRenderFunction)
        requires
            1 <= max_iterations <= 1048576,
            1 <= width <= 1048576,
            1 <= height <= 1048576,
            width <= 2 * height,
            height <= 2 * width,
            iabs(c_re.bits as int) <= 8589934592,
            iabs(c_im.bits as int) <= 8589934592,
            iabs(center_re.bits as int) <= 8589934592,
            iabs(center_im.bits as int) <= 8589934592,
            0 < scale.bits <= 17179869184,
        ensures
            f.wf(),
            f.c_re == c_re,
            f.c_im == c_im,
            f.max_iterations == max_iterations,
            f.width == width,
            f.height == height,
            f.offset_re.bits == center_re.bits - fx_mul(
                scale.bits as int,
                aspect_x_bits(width as int, height as int),
            ),
            f.offset_im.bits == center_im.bits + fx_mul(
                scale.bits as int,
                aspect_y_bits(width as int, height as int),
            ),
            f.scale_re.bits == crate::fixed::fx_div(
                2 * fx_mul(scale.bits as int, aspect_x_bits(width as int, height as int)),
                width * FX_ONE,
            ),
            f.scale_im.bits == crate::fixed::fx_div(
                2 * fx_mul(scale.bits as int, aspect_y_bits(width as int, height as int)),
                height * FX_ONE,
            ),
    {
        let (offset_re, offset_im, scale_re, scale_im) = viewport(
            center_re,
            center_im,
            scale,
            width,
            height,
        );
        JuliaRenderFunction {
            c_re,
            c_im,
            offset_re,
            offset_im,
            scale_re,
            scale_im,
            max_iterations,
            width,
            height,
        }
    }
}

impl Renderer for JuliaRenderFunction {
    open spec fn wf(&self) -> bool {
        &&& 1 <= self.max_iterations <= 1048576
        &&& 1 <= self.width <= 1048576
        &&& 1 <= self.height <= 1048576
        &&& iabs(self.c_re.bits as int) <= 8589934592
        &&& iabs(self.c_im.bits as int) <= 8589934592
        &&& iabs(self.offset_re.bits as int) <= 42949672960
        &&& iabs(self.offset_im.bits as int) <= 42949672960
        &&& 0 <= self.scale_re.bits
        &&& 0 <= self.scale_im.bits
        &&& self.scale_re.bits * (self.width + 1) <= 137438953472
        &&& self.scale_im.bits * (self.height + 1) <= 137438953472
    }

    open spec fn in_domain(&self, s: Sample) -> bool {
        &&& s.pixel_x < self.width
        &&& s.pixel_y < self.height
        &&& 0 <= s.offset_x.bits <= FX_ONE
        &&& 0 <= s.offset_y.bits <= FX_ONE
    }

    open spec fn render_spec(&self, s: Sample) -> int {
        escape_value(
            mapped_re(self.offset_re.bits as int, self.scale_re.bits as int, s),
            mapped_im(self.offset_im.bits as int, self.scale_im.bits as int, s),
            self.c_re.bits as int,
            self.c_im.bits as int,
            self.max_iterations as int,
        )
    }

    fn render(&self, sample: &Sample) -> (r: Fx)
    {
        let (x, y) = sample.location();
        proof {
            lemma_mapped_mul_bound(
                x.bits as int,
                self.scale_re.bits as int,
                self.width as int,
            );
            lemma_mapped_mul_bound(
                y.bits as int,
                self.scale_im.bits as int,
                self.height as int,
            );
        }
        let z0_re = self.offset_re.add(x.mul(self.scale_re));
        let z0_im = self.offset_im.sub(y.mul(self.scale_im));
        let max_iterations: u64 = self.max_iterations as u64;
        let (i, zr, zi) = crate::rendering::escape_iterate(
            z0_re,
            z0_im,
            self.c_re,
            self.c_im,
            max_iterations,
        );
        if i < max_iterations {
            proof {
                lemma_fx_mul_mag(
                    zr.bits as int,
                    zr.bits as int,
                    412316860416,
                    412316860416,
                    39582418599936,
                );
                lemma_fx_mul_mag(
                    zi.bits as int,
                    zi.bits as int,
                    412316860416,
                    412316860416,
                    39582418599936,
                );
            }
            let nsq = Fx { bits: zr.mul(zr).bits + zi.mul(zi).bits };
            crate::rendering::smooth_value(i, max_iterations, nsq)
        } else {
            Fx { bits: -FX_ONE }
        }
    }
}

} // verus!
