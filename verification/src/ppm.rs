//! Plain-text image output and the rendering driver.
//!
//! The image format is textual: a three-line header (`P3`, the dimensions,
//! the channel maximum 255) followed by one line per pixel of three
//! integers in `[0, 255]`, rows emitted top to bottom. `render` drives the
//! whole pipeline — jittered camera rays, the recursive integrator, sample
//! averaging, gamma correction and quantization — and its contract pins the
//! shape of the produced text exactly.

use vstd::prelude::*;

use crate::camera::Camera;
use crate::fixed::{fx_sqrt, lemma_real_range, tdiv, Real, SCALE};
use crate::hit::Hittable;
use crate::integrator::ray_color;
use crate::vec3::{Color, Vec3, Vec3V};

verus! {

broadcast use lemma_real_range;

/// The decimal digit character for `d` in `0 ..= 9`.
pub open spec fn digit_char(d: int) -> char {
    if d == 0 {
        '0'
    } else if d == 1 {
        '1'
    } else if d == 2 {
        '2'
    } else if d == 3 {
        '3'
    } else if d == 4 {
        '4'
    } else if d == 5 {
        '5'
    } else if d == 6 {
        '6'
    } else if d == 7 {
        '7'
    } else if d == 8 {
        '8'
    } else {
        '9'
    }
}

/// The decimal digits of a natural number, most significant first.
pub open spec fn dec_seq(n: nat) -> Seq<char>
    decreases n,
{
    if n < 10 {
        seq![digit_char(n as int)]
    } else {
        dec_seq(n / 10).push(digit_char((n % 10) as int))
    }
}

/// The decimal notation of an integer, with a leading minus when negative.
pub open spec fn int_seq(n: int) -> Seq<char> {
    if n < 0 {
        seq!['-'] + dec_seq((-n) as nat)
    } else {
        dec_seq(n as nat)
    }
}

/// The one-character string for a decimal digit.
fn digit_str(d: u64) -> (s: &'static str)
    requires
        d < 10,
    ensures
        s@ == seq![digit_char(d as int)],
{
    proof {
        reveal_strlit("0");
        reveal_strlit("1");
        reveal_strlit("2");
        reveal_strlit("3");
        reveal_strlit("4");
        reveal_strlit("5");
        reveal_strlit("6");
        reveal_strlit("7");
        reveal_strlit("8");
        reveal_strlit("9");
        assert("0"@ =~= seq![digit_char(0)]);
        assert("1"@ =~= seq![digit_char(1)]);
        assert("2"@ =~= seq![digit_char(2)]);
        assert("3"@ =~= seq![digit_char(3)]);
        assert("4"@ =~= seq![digit_char(4)]);
        assert("5"@ =~= seq![digit_char(5)]);
        assert("6"@ =~= seq![digit_char(6)]);
        assert("7"@ =~= seq![digit_char(7)]);
        assert("8"@ =~= seq![digit_char(8)]);
        assert("9"@ =~= seq![digit_char(9)]);
    }
    match d {
        0 => "0",
        1 => "1",
        2 => "2",
        3 => "3",
        4 => "4",
        5 => "5",
        6 => "6",
        7 => "7",
        8 => "8",
        _ => "9",
    }
}

/// The decimal notation of an unsigned number.
pub fn u64_to_string(n: u64) -> (s: String)
    ensures
        s@ == dec_seq(n as nat),
    decreases n,
{
    if n < 10 {
        String::from_str(digit_str(n))
    } else {
        let mut s = u64_to_string(n / 10);
        s.append(digit_str(n % 10));
        proof {
            assert(s@ =~= dec_seq((n / 10) as nat).push(digit_char((n % 10) as int)));
        }
        s
    }
}

/// The decimal notation of a signed number above `i64::MIN`.
pub fn i64_to_string(n: i64) -> (s: String)
    requires
        n > i64::MIN,
    ensures
        s@ == int_seq(n as int),
{
    if n >= 0 {
        u64_to_string(n as u64)
    } else {
        let mut s = String::from_str("-");
        let digits = u64_to_string((-n) as u64);
        s.append(digits.as_str());
        proof {
            reveal_strlit("-");
            assert("-"@ =~= seq!['-']);
            assert(s@ =~= int_seq(n as int));
        }
        s
    }
}

/// The channel value written for color component `c` averaged over `spp`
/// samples: the average, clamped below at zero, gamma-corrected by a
/// square root, clamped to `[0, 0.999]`, scaled by 256 and truncated.
pub open spec fn spec_quantize(c: int, spp: int) -> int
    recommends
        spp >= 1,
{
    let avg = tdiv(c, spp);
    let g = if avg < 0 {
        0
    } else {
        fx_sqrt(avg)
    };
    let cl = if g > 999_000 {
        999_000
    } else {
        g
    };
    tdiv(cl * 256, SCALE as int)
}

/// One pixel line: three decimal channel values and a line break.
pub open spec fn spec_pixel_line(r: int, g: int, b: int) -> Seq<char> {
    dec_seq(r as nat) + seq![' '] + dec_seq(g as nat) + seq![' '] + dec_seq(b as nat) + seq!['\n']
}

/// Quantize one non-negative-or-clamped channel to `0 ..= 255`.
fn quantize(c: Real, spp: u32) -> (q: u64)
    requires
        spp >= 1,
    ensures
        q as int == spec_quantize(c@, spp as int),
        q <= 255,
{
    let avg = c.div_whole(spp);
    let g = if avg.raw() < 0 {
        Real::zero()
    } else {
        avg.sqrt()
    };
    proof {
        if avg@ >= 0 {
            crate::fixed::lemma_sqrt_floor_bounds((avg@ * (SCALE as int)) as nat);
        }
    }
    let cl = if g.gt(&Real::from_raw(999_000)) {
        Real::from_raw(999_000)
    } else {
        g
    };
    let clr = cl.raw();
    proof {
        assert(0 <= clr <= 999_000);
    }
    let q: u64 = (clr as u64) * 256 / 1_000_000;
    proof {
        assert((clr as u64) * 256 <= 999_000 * 256) by (nonlinear_arith)
            requires
                0 <= clr <= 999_000,
        ;
        assert(255_744_000u64 / 1_000_000u64 == 255u64) by (nonlinear_arith);
        assert(q <= 255) by (nonlinear_arith)
            requires
                q == (clr as u64) * 256 / 1_000_000,
                (clr as u64) * 256 <= 255_744_000u64,
        ;
        assert(q as int == tdiv(clr as int * 256, SCALE as int));
    }
    q
}

/// The output line for a pixel color averaged over `spp` samples: the
/// three quantized channel values, space-separated, ending the line.
pub fn write_color(pixel_color: &Color, samples_per_pixel: u32) -> (line: String)
    requires
        samples_per_pixel >= 1,
    ensures
        line@ == spec_pixel_line(
            spec_quantize(pixel_color@.x, samples_per_pixel as int),
            spec_quantize(pixel_color@.y, samples_per_pixel as int),
            spec_quantize(pixel_color@.z, samples_per_pixel as int),
        ),
        0 <= spec_quantize(pixel_color@.x, samples_per_pixel as int) <= 255,
        0 <= spec_quantize(pixel_color@.y, samples_per_pixel as int) <= 255,
        0 <= spec_quantize(pixel_color@.z, samples_per_pixel as int) <= 255,
{
    let r = quantize(pixel_color.x, samples_per_pixel);
    let g = quantize(pixel_color.y, samples_per_pixel);
    let b = quantize(pixel_color.z, samples_per_pixel);
    let mut line = u64_to_string(r);
    line.append(" ");
    let gs = u64_to_string(g);
    line.append(gs.as_str());
    line.append(" ");
    let bs = u64_to_string(b);
    line.append(bs.as_str());
    line.append("\n");
    proof {
        reveal_strlit(" ");
        reveal_strlit("\n");
        assert(" "@ =~= seq![' ']);
        assert("\n"@ =~= seq!['\n']);
        assert(line@ =~= spec_pixel_line(
            spec_quantize(pixel_color@.x, samples_per_pixel as int),
            spec_quantize(pixel_color@.y, samples_per_pixel as int),
            spec_quantize(pixel_color@.z, samples_per_pixel as int),
        ));
    }
    line
}

/// The display form of a color: the three channels scaled by 255.999 and
/// truncated, space-separated.
pub open spec fn spec_display(c: Vec3V) -> Seq<char> {
    int_seq(tdiv(c.x * 255_999, 1_000_000_000)) + seq![' '] + int_seq(
        tdiv(c.y * 255_999, 1_000_000_000),
    ) + seq![' '] + int_seq(tdiv(c.z * 255_999, 1_000_000_000))
}

/// One channel scaled by 255.999 and truncated to a whole number.
fn display_channel(c: Real) -> (r: i64)
    ensures
        r as int == tdiv(c@ * 255_999, 1_000_000_000),
        r > i64::MIN,
{
    let raw = c.raw();
    let neg: bool = raw < 0;
    let m: u128 = if raw < 0 {
        (-raw) as u128
    } else {
        raw as u128
    };
    let q: u128 = m * 255_999 / 1_000_000_000;
    proof {
        assert(m * 255_999 <= 0x8000_0000_0000_0000u128 * 255_999) by (nonlinear_arith)
            requires
                m <= 0x8000_0000_0000_0000u128,
        ;
        assert(0x8000_0000_0000_0000u128 * 255_999 / 1_000_000_000
            < 0x7fff_ffff_ffff_ffffu128) by (nonlinear_arith);
        assert(q < 0x7fff_ffff_ffff_ffffu128) by (nonlinear_arith)
            requires
                q == m * 255_999 / 1_000_000_000,
                m * 255_999 <= 0x8000_0000_0000_0000u128 * 255_999,
                0x8000_0000_0000_0000u128 * 255_999 / 1_000_000_000 < 0x7fff_ffff_ffff_ffffu128,
        ;
        assert(crate::fixed::abs_i(c@ * 255_999) == crate::fixed::abs_i(c@) * 255_999)
            by (nonlinear_arith);
        assert((c@ * 255_999 >= 0) == (c@ >= 0)) by (nonlinear_arith);
    }
    if neg {
        -(q as i64)
    } else {
        q as i64
    }
}

impl Vec3 {
    /// The color as text: each channel scaled by 255.999 and truncated,
    /// space-separated — the form in which a pixel is printed.
    pub fn display_string(&self) -> (s: String)
        ensures
            s@ == spec_display(self@),
    {
        let r = display_channel(self.x);
        let g = display_channel(self.y);
        let b = display_channel(self.z);
        let mut s = i64_to_string(r);
        s.append(" ");
        let gs = i64_to_string(g);
        s.append(gs.as_str());
        s.append(" ");
        let bs = i64_to_string(b);
        s.append(bs.as_str());
        proof {
            reveal_strlit(" ");
            assert(" "@ =~= seq![' ']);
            assert(s@ =~= spec_display(self@));
        }
        s
    }
}

/// The three-line image header: the magic `P3`, the dimensions, and the
/// channel maximum 255.
pub open spec fn spec_ppm_header(w: int, h: int) -> Seq<char> {
    seq!['P', '3', '\n'] + dec_seq(w as nat) + seq![' '] + dec_seq(h as nat) + seq!['\n'] + seq![
        '2',
        '5',
        '5',
        '\n',
    ]
}

/// The pixel lines of an image, row-major.
pub open spec fn spec_pixel_lines(pix: Seq<(u8, u8, u8)>) -> Seq<char>
    decreases pix.len(),
{
    if pix.len() == 0 {
        Seq::empty()
    } else {
        spec_pixel_line(pix[0].0 as int, pix[0].1 as int, pix[0].2 as int) + spec_pixel_lines(
            pix.drop_first(),
        )
    }
}

/// Appending one pixel extends the pixel lines by one line.
proof fn lemma_pixel_lines_push(pix: Seq<(u8, u8, u8)>, p: (u8, u8, u8))
    ensures
        spec_pixel_lines(pix.push(p)) == spec_pixel_lines(pix) + spec_pixel_line(
            p.0 as int,
            p.1 as int,
            p.2 as int,
        ),
    decreases pix.len(),
{
    let line = spec_pixel_line(p.0 as int, p.1 as int, p.2 as int);
    if pix.len() == 0 {
        assert(pix.push(p).drop_first() =~= Seq::<(u8, u8, u8)>::empty());
        assert(pix.push(p)[0] == p);
        assert(spec_pixel_lines(Seq::<(u8, u8, u8)>::empty()) == Seq::<char>::empty());
        assert(spec_pixel_lines(pix.push(p)) == line + Seq::<char>::empty());
        assert(spec_pixel_lines(pix) == Seq::<char>::empty());
        assert(spec_pixel_lines(pix.push(p)) =~= spec_pixel_lines(pix) + line);
    } else {
        assert(pix.push(p).drop_first() =~= pix.drop_first().push(p));
        assert(pix.push(p)[0] == pix[0]);
        lemma_pixel_lines_push(pix.drop_first(), p);
        let head = spec_pixel_line(pix[0].0 as int, pix[0].1 as int, pix[0].2 as int);
        assert(spec_pixel_lines(pix.push(p)) == head + spec_pixel_lines(pix.drop_first().push(p)));
        assert(spec_pixel_lines(pix.push(p)) == head + (spec_pixel_lines(pix.drop_first()) + line));
        assert(spec_pixel_lines(pix) == head + spec_pixel_lines(pix.drop_first()));
        assert(spec_pixel_lines(pix.push(p)) =~= spec_pixel_lines(pix) + line);
    }
}

/// Render a scene to the textual image format: for each pixel, average
/// `samples_per_pixel` jittered primary rays traced to depth `max_depth`,
/// then quantize. The output is exactly a header for the given dimensions
/// followed by one line per pixel, three integers in `[0, 255]` each, rows
/// top to bottom.
pub fn render<H: Hittable>(
    world: &H,
    camera: &Camera,
    image_width: u32,
    image_height: u32,
    samples_per_pixel: u32,
    max_depth: u32,
    rng: &mut rand::rngs::StdRng,
) -> (out: String)
    requires
        world.wf(),
        image_width >= 2,
        image_height >= 2,
        samples_per_pixel >= 1,
    ensures
        exists|pix: Seq<(u8, u8, u8)>|
            #[trigger] pix.len() == (image_width as int) * (image_height as int) && out@
                == spec_ppm_header(image_width as int, image_height as int) + spec_pixel_lines(pix),
{
    let mut out = String::from_str("P3\n");
    let ws = u64_to_string(image_width as u64);
    out.append(ws.as_str());
    out.append(" ");
    let hs = u64_to_string(image_height as u64);
    out.append(hs.as_str());
    out.append("\n255\n");
    proof {
        reveal_strlit("P3\n");
        reveal_strlit(" ");
        reveal_strlit("\n255\n");
        assert("P3\n"@ =~= seq!['P', '3', '\n']);
        assert(" "@ =~= seq![' ']);
        assert("\n255\n"@ =~= seq!['\n', '2', '5', '5', '\n']);
        assert(out@ =~= spec_ppm_header(image_width as int, image_height as int));
    }
    let ghost header = out@;
    let ghost mut pix: Seq<(u8, u8, u8)> = Seq::empty();
    proof {
        assert(spec_pixel_lines(pix) =~= Seq::<char>::empty());
        assert(out@ =~= header + spec_pixel_lines(pix));
    }

    let w_base = Real::from_int((image_width - 1) as i64);
    let h_base = Real::from_int((image_height - 1) as i64);
    proof {
        assert(w_base@ >= SCALE as int) by (nonlinear_arith)
            requires
                w_base@ == (image_width - 1) * (SCALE as int),
                image_width >= 2,
        ;
        assert(h_base@ >= SCALE as int) by (nonlinear_arith)
            requires
                h_base@ == (image_height - 1) * (SCALE as int),
                image_height >= 2,
        ;
    }

    let zero = Real::zero();
    let one = Real::one();
    let mut jj: u32 = 0;
    while jj < image_height
        invariant
            world.wf(),
            samples_per_pixel >= 1,
            image_width >= 2,
            0 <= jj <= image_height,
            w_base@ >= SCALE as int,
            h_base@ >= SCALE as int,
            zero@ == 0,
            one@ == SCALE as int,
            pix.len() == (jj as int) * (image_width as int),
            out@ == header + spec_pixel_lines(pix),
        decreases image_height - jj,
    {
        let j = image_height - 1 - jj;
        let mut i: u32 = 0;
        while i < image_width
            invariant
                world.wf(),
                samples_per_pixel >= 1,
                image_width >= 2,
                0 <= i <= image_width,
                w_base@ >= SCALE as int,
                h_base@ >= SCALE as int,
                zero@ == 0,
                one@ == SCALE as int,
                j < 0x1_0000_0000,
                pix.len() == (jj as int) * (image_width as int) + i as int,
                out@ == header + spec_pixel_lines(pix),
            decreases image_width - i,
        {
            let mut color = Color::new(zero, zero, zero);
            let mut s: u32 = 0;
            while s < samples_per_pixel
                invariant
                    world.wf(),
                    w_base@ >= SCALE as int,
                    h_base@ >= SCALE as int,
                    zero@ == 0,
                    one@ == SCALE as int,
                    i < 0x1_0000_0000,
                    j < 0x1_0000_0000,
                decreases samples_per_pixel - s,
            {
                let u = Real::from_int(i as i64).add(
                    crate::rng::random_double(zero, one, rng),
                ).div(w_base);
                let v = Real::from_int(j as i64).add(
                    crate::rng::random_double(zero, one, rng),
                ).div(h_base);
                let ray = camera.get_ray(u, v);
                let sample = ray_color(&ray, world, max_depth, rng);
                color.add_assign(&sample);
                s = s + 1;
            }
            let line = write_color(&color, samples_per_pixel);
            out.append(line.as_str());
            proof {
                let q1 = spec_quantize(color@.x, samples_per_pixel as int);
                let q2 = spec_quantize(color@.y, samples_per_pixel as int);
                let q3 = spec_quantize(color@.z, samples_per_pixel as int);
                let p = ((q1 as u8), (q2 as u8), (q3 as u8));
                lemma_pixel_lines_push(pix, p);
                pix = pix.push(p);
                assert(out@ =~= header + spec_pixel_lines(pix));
            }
            i = i + 1;
        }
        proof {
            assert((jj as int) * (image_width as int) + image_width as int == (jj as int + 1) * (
            image_width as int)) by (nonlinear_arith);
        }
        jj = jj + 1;
    }
    proof {
        assert(pix.len() == (image_height as int) * (image_width as int));
        assert((image_height as int) * (image_width as int) == (image_width as int) * (
        image_height as int)) by (nonlinear_arith);
    }
    out
}

} // verus!

