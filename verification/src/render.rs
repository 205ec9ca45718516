//! Per-pixel sampling and image assembly.
//!
//! Each pixel averages a configured number of jittered camera samples,
//! gamma-corrects the average and quantizes it to 8-bit channels; rows are
//! serialized to the plain-text pixel format behind a short header.

use crate::camera::{camera_ray_v, Camera, CameraModel};
use crate::color::{byte_of, dec_spec, gamma_c, push_decimal, Color24b, ToColor};
use crate::constants::QUICK_RENDER;
use crate::fixed::{div_floor_i64, FP_ONE};
use crate::hit::HittableList;
use crate::sphere::SphereModel;
use crate::trace::{color01, trace_outcome};
use crate::rng::rand_fp;
use crate::vector3::{add_v, Vec3, Vector3f};
use vstd::prelude::*;

verus! {

/// The header of the plain-text pixel format: the format tag, the image
/// dimensions in decimal, and the maximum channel value.
pub open spec fn ppm_header_bytes(width: nat, height: nat) -> Seq<u8> {
    seq![80u8, 51u8, 10u8] + dec_spec(width) + seq![32u8] + dec_spec(height) + seq![
        10u8,
        50u8,
        53u8,
        53u8,
        10u8,
    ]
}

/// Build the image header.
pub fn ppm_header(width: u16, height: u16) -> (buf: Vec<u8>)
    ensures
        buf@ == ppm_header_bytes(width as nat, height as nat),
{
    let mut buf: Vec<u8> = Vec::new();
    buf.push(80);
    buf.push(51);
    buf.push(10);
    push_decimal(&mut buf, width as u32);
    buf.push(32);
    push_decimal(&mut buf, height as u32);
    buf.push(10);
    buf.push(50);
    buf.push(53);
    buf.push(53);
    buf.push(10);
    proof {
        assert(buf@ =~= ppm_header_bytes(width as nat, height as nat));
    }
    buf
}

/// The text form of one pixel: three decimal channels and a newline.
pub open spec fn pixel_bytes(c: Color24b) -> Seq<u8> {
    dec_spec(c.r as nat) + seq![32u8] + dec_spec(c.g as nat) + seq![32u8] + dec_spec(c.b as nat)
        + seq![10u8]
}

/// The text form of the first `i` pixels of a row.
pub open spec fn row_bytes_upto(row: Seq<Color24b>, i: int) -> Seq<u8>
    decreases i,
{
    if i <= 0 {
        Seq::empty()
    } else {
        row_bytes_upto(row, i - 1) + pixel_bytes(row[i - 1])
    }
}

/// The text form of a whole row.
pub open spec fn row_bytes(row: Seq<Color24b>) -> Seq<u8> {
    row_bytes_upto(row, row.len() as int)
}

/// Serialize one row of quantized pixels.
pub fn write_row(row: &Vec<Color24b>, buf: &mut Vec<u8>)
    ensures
        final(buf)@ == old(buf)@ + row_bytes(row@),
{
    let n = row.len();
    let mut i: usize = 0;
    while i < n
        invariant
            n == row@.len(),
            0 <= i <= n,
            buf@ == old(buf)@ + row_bytes_upto(row@, i as int),
        decreases n - i,
    {
        row[i].write(buf);
        proof {
            assert(buf@ =~= old(buf)@ + row_bytes_upto(row@, i + 1));
        }
        i = i + 1;
    }
    proof {
        assert(buf@ =~= old(buf)@ + row_bytes(row@));
    }
}

/// One sample's contribution to the average: each channel floored down
/// by the sample count.
pub open spec fn share_v(c: Vec3, n: int) -> Vec3
    recommends
        n >= 1,
{
    Vec3 { x: c.x / n, y: c.y / n, z: c.z / n }
}

/// The sum of the per-sample shares of a sequence of sample colors.
pub open spec fn shares_sum(cs: Seq<Vec3>, n: int) -> Vec3
    decreases cs.len(),
{
    if cs.len() == 0 {
        Vec3 { x: 0, y: 0, z: 0 }
    } else {
        add_v(shares_sum(cs.drop_last(), n), share_v(cs.last(), n))
    }
}

/// The jittered image-plane fraction for pixel index `idx` of `extent`.
pub open spec fn jittered_fraction_v(idx: int, jitter: int, extent: int) -> int {
    (idx * FP_ONE as int + jitter) / (extent - 1)
}

/// A possible color of one camera sample for pixel `(i, j)`: the trace of
/// the camera ray through the pixel footprint, jittered by some uniform
/// offsets.
pub open spec fn sample_outcome(
    cam: CameraModel,
    objs: Seq<SphereModel>,
    i: int,
    j: int,
    w: int,
    h: int,
    bounces: nat,
    sc: Vec3,
) -> bool {
    exists|ju: int, jv: int|
        #![auto]
        0 <= ju < FP_ONE as int && 0 <= jv < FP_ONE as int && trace_outcome(
            objs,
            camera_ray_v(cam, jittered_fraction_v(i, ju, w), jittered_fraction_v(j, jv, h)),
            bounces,
            sc,
        )
}

/// A possible averaged pixel color: the sum of the per-sample shares of
/// `samples` sample outcomes.
pub open spec fn pixel_outcome(
    cam: CameraModel,
    objs: Seq<SphereModel>,
    i: int,
    j: int,
    w: int,
    h: int,
    samples: int,
    bounces: nat,
    c: Vec3,
) -> bool {
    exists|cs: Seq<Vec3>|
        #![auto]
        cs.len() == samples && (forall|k: int|
            0 <= k < samples ==> sample_outcome(cam, objs, i, j, w, h, bounces, #[trigger] cs[k]))
            && c == shares_sum(cs, samples)
}

/// Average `samples` jittered camera samples through the scene for the
/// pixel at column `i`, row `j`; the result is a color in `[0, 1]`.
pub fn sample_pixel(
    camera: &Camera,
    meshes: &HittableList,
    i: u16,
    j: u16,
    image_width: u16,
    image_height: u16,
    samples: u16,
    max_bounces: u16,
    rng: &mut rand::rngs::StdRng,
) -> (c: Vector3f)
    requires
        2 <= image_width,
        2 <= image_height,
        i < image_width,
        j < image_height,
        1 <= samples,
    ensures
        color01(c@),
        pixel_outcome(
            camera@,
            meshes@,
            i as int,
            j as int,
            image_width as int,
            image_height as int,
            samples as int,
            max_bounces as nat,
            c@,
        ),
{
    let mut pixel_color = Vector3f::zero();
    let ghost per_sample: int = FP_ONE as int / samples as int;
    let ghost mut cs: Seq<Vec3> = Seq::empty();
    let mut s: u16 = 0;
    while s < samples
        invariant
            2 <= image_width,
            2 <= image_height,
            i < image_width,
            j < image_height,
            1 <= samples,
            s <= samples,
            per_sample == FP_ONE as int / samples as int,
            0 <= pixel_color@.x <= s as int * per_sample,
            0 <= pixel_color@.y <= s as int * per_sample,
            0 <= pixel_color@.z <= s as int * per_sample,
            s as int * per_sample <= FP_ONE,
            cs.len() == s as int,
            forall|k: int|
                0 <= k < s as int ==> sample_outcome(
                    camera@,
                    meshes@,
                    i as int,
                    j as int,
                    image_width as int,
                    image_height as int,
                    max_bounces as nat,
                    #[trigger] cs[k],
                ),
            pixel_color@ == shares_sum(cs, samples as int),
        decreases samples - s,
    {
        let u_jitter = rand_fp(rng);
        let v_jitter = rand_fp(rng);
        let u = div_floor_i64(i as i64 * FP_ONE + u_jitter, image_width as i64 - 1);
        let v = div_floor_i64(j as i64 * FP_ONE + v_jitter, image_height as i64 - 1);
        proof {
            lemma_jitter_fraction(i as int, u_jitter as int, image_width as int);
            lemma_jitter_fraction(j as int, v_jitter as int, image_height as int);
        }
        let ray = camera.get_ray(u, v);
        let sample_color = ray.find_color_from_ray_in_world(meshes, max_bounces, rng);
        let share = Vector3f {
            x: div_floor_i64(sample_color.x, samples as i64),
            y: div_floor_i64(sample_color.y, samples as i64),
            z: div_floor_i64(sample_color.z, samples as i64),
        };
        proof {
            lemma_sample_share(sample_color@.x, samples as int);
            lemma_sample_share(sample_color@.y, samples as int);
            lemma_sample_share(sample_color@.z, samples as int);
            lemma_share_accumulates(s as int, samples as int);
            assert(u as int == jittered_fraction_v(
                i as int,
                u_jitter as int,
                image_width as int,
            ));
            assert(v as int == jittered_fraction_v(
                j as int,
                v_jitter as int,
                image_height as int,
            ));
            assert(sample_outcome(
                camera@,
                meshes@,
                i as int,
                j as int,
                image_width as int,
                image_height as int,
                max_bounces as nat,
                sample_color@,
            ));
            let ghost prev_cs = cs;
            cs = cs.push(sample_color@);
            assert(cs.drop_last() =~= prev_cs);
            assert(cs.last() == sample_color@);
            assert(shares_sum(cs, samples as int) == add_v(
                shares_sum(prev_cs, samples as int),
                share_v(sample_color@, samples as int),
            ));
            assert(share@ == share_v(sample_color@, samples as int));
            assert(forall|k: int| 0 <= k < s as int ==> #[trigger] cs[k] == prev_cs[k]);
        }
        pixel_color = pixel_color.add(share);
        s = s + 1;
    }
    proof {
        crate::fixed::lemma_div_stays_in_range(FP_ONE as int, samples as int);
        vstd::arithmetic::div_mod::lemma_fundamental_div_mod(FP_ONE as int, samples as int);
        vstd::arithmetic::div_mod::lemma_mod_bound(FP_ONE as int, samples as int);
        assert(pixel_outcome(
            camera@,
            meshes@,
            i as int,
            j as int,
            image_width as int,
            image_height as int,
            samples as int,
            max_bounces as nat,
            pixel_color@,
        ));
    }
    pixel_color
}

/// `(i * FP_ONE + jitter) / (w - 1)` lies within one unit of the nominal
/// fraction: between zero and two.
proof fn lemma_jitter_fraction(i: int, jitter: int, w: int)
    requires
        0 <= i < w,
        2 <= w,
        0 <= jitter < FP_ONE,
    ensures
        0 <= (i * FP_ONE as int + jitter) / (w - 1) <= 2 * FP_ONE as int,
{
    assert(0 <= i * FP_ONE as int + jitter <= (w - 1) * (2 * FP_ONE as int))
        by (nonlinear_arith)
        requires
            0 <= i < w,
            2 <= w,
            0 <= jitter < FP_ONE,
            FP_ONE == 65536,
    ;
    crate::fixed::lemma_div_stays_in_range(i * FP_ONE as int + jitter, w - 1);
    vstd::arithmetic::div_mod::lemma_div_is_ordered(
        i * FP_ONE as int + jitter,
        (w - 1) * (2 * FP_ONE as int),
        w - 1,
    );
    vstd::arithmetic::div_mod::lemma_div_by_multiple(2 * FP_ONE as int, w - 1);
}

/// One sample's share of the average lies between zero and the per-sample
/// budget `FP_ONE / samples`.
proof fn lemma_sample_share(c: int, n: int)
    requires
        0 <= c <= FP_ONE as int,
        1 <= n,
    ensures
        0 <= c / n <= FP_ONE as int / n,
{
    crate::fixed::lemma_div_stays_in_range(c, n);
    vstd::arithmetic::div_mod::lemma_div_is_ordered(c, FP_ONE as int, n);
}

/// Accumulated per-sample budgets never exceed the whole: each step adds
/// one more share, and `n` shares stay within `FP_ONE`.
proof fn lemma_share_accumulates(s: int, n: int)
    requires
        0 <= s < n,
    ensures
        (s + 1) * (FP_ONE as int / n) <= n * (FP_ONE as int / n),
        n * (FP_ONE as int / n) <= FP_ONE as int,
        s * (FP_ONE as int / n) + FP_ONE as int / n == (s + 1) * (FP_ONE as int / n),
{
    crate::fixed::lemma_div_stays_in_range(FP_ONE as int, n);
    let q = FP_ONE as int / n;
    assert((s + 1) * q <= n * q) by (nonlinear_arith)
        requires
            0 <= s < n,
            q >= 0,
    ;
    vstd::arithmetic::div_mod::lemma_fundamental_div_mod(FP_ONE as int, n);
    vstd::arithmetic::div_mod::lemma_mod_bound(FP_ONE as int, n);
    assert(s * q + q == (s + 1) * q) by (nonlinear_arith);
}

/// Whether quick rendering leaves the pixel at `(i, j)` black: every
/// other pixel of a checkerboard.
pub open spec fn checker_skipped(i: int, j: int) -> bool {
    QUICK_RENDER && (j % 2 == 0 && i % 2 == 1 || i % 2 == 0 && j % 2 == 1)
}

/// A pixel color gamma-corrected and quantized to 8-bit channels.
pub open spec fn quantized_v(c: Vec3) -> Color24b {
    Color24b {
        r: byte_of(gamma_c(c.x)) as u8,
        g: byte_of(gamma_c(c.y)) as u8,
        b: byte_of(gamma_c(c.z)) as u8,
    }
}

/// A possible quantized pixel of the image at column `i`, row `j`: black
/// on the quick-render checkerboard, else the gamma-corrected quantization
/// of a possible averaged sample color.
pub open spec fn row_pixel_outcome(
    cam: CameraModel,
    objs: Seq<SphereModel>,
    i: int,
    j: int,
    w: int,
    h: int,
    samples: int,
    bounces: nat,
    px: Color24b,
) -> bool {
    if checker_skipped(i, j) {
        px == (Color24b { r: 0, g: 0, b: 0 })
    } else {
        exists|c: Vec3|
            #![auto]
            color01(c) && pixel_outcome(cam, objs, i, j, w, h, samples, bounces, c) && px
                == quantized_v(c)
    }
}

/// Render one row of the image, top row `j = image_height - 1` first by
/// convention of the caller. In quick mode every other pixel is left
/// black in a checkerboard.
pub fn render_row(
    camera: &Camera,
    meshes: &HittableList,
    j: u16,
    image_width: u16,
    image_height: u16,
    samples: u16,
    max_bounces: u16,
    rng: &mut rand::rngs::StdRng,
) -> (row: Vec<Color24b>)
    requires
        2 <= image_width,
        2 <= image_height,
        j < image_height,
        1 <= samples,
    ensures
        row@.len() == image_width as nat,
        forall|k: int|
            0 <= k < image_width as int ==> row_pixel_outcome(
                camera@,
                meshes@,
                k,
                j as int,
                image_width as int,
                image_height as int,
                samples as int,
                max_bounces as nat,
                #[trigger] row@[k],
            ),
{
    let mut row: Vec<Color24b> = Vec::new();
    let mut i: u16 = 0;
    while i < image_width
        invariant
            2 <= image_width,
            2 <= image_height,
            j < image_height,
            1 <= samples,
            i <= image_width,
            row@.len() == i as nat,
            forall|k: int|
                0 <= k < i as int ==> row_pixel_outcome(
                    camera@,
                    meshes@,
                    k,
                    j as int,
                    image_width as int,
                    image_height as int,
                    samples as int,
                    max_bounces as nat,
                    #[trigger] row@[k],
                ),
        decreases image_width - i,
    {
        let ghost prev_row = row@;
        if QUICK_RENDER && (j % 2 == 0 && i % 2 == 1 || i % 2 == 0 && j % 2 == 1) {
            row.push(crate::color::Color::min_color().to_24_bit());
            proof {
                assert(checker_skipped(i as int, j as int));
                assert(row@.last() == (Color24b { r: 0, g: 0, b: 0 }));
            }
        } else {
            let pixel = sample_pixel(
                camera,
                meshes,
                i,
                j,
                image_width,
                image_height,
                samples,
                max_bounces,
                rng,
            );
            let mut color = pixel.to_color();
            let corrected = color.gamma_two_correct();
            proof {
                crate::color::lemma_gamma_unit(pixel@.x);
                crate::color::lemma_gamma_unit(pixel@.y);
                crate::color::lemma_gamma_unit(pixel@.z);
            }
            row.push(corrected.to_24_bit());
            proof {
                assert(!checker_skipped(i as int, j as int));
                assert(row@.last() == quantized_v(pixel@));
                assert(row_pixel_outcome(
                    camera@,
                    meshes@,
                    i as int,
                    j as int,
                    image_width as int,
                    image_height as int,
                    samples as int,
                    max_bounces as nat,
                    row@.last(),
                ));
            }
        }
        proof {
            assert(forall|k: int| 0 <= k < i as int ==> #[trigger] row@[k] == prev_row[k]);
            assert(row@[i as int] == row@.last());
        }
        i = i + 1;
    }
    row
}

/// The serialization of a sequence of pixel rows, in order.
pub open spec fn rows_bytes(rows: Seq<Seq<Color24b>>) -> Seq<u8>
    decreases rows.len(),
{
    if rows.len() == 0 {
        Seq::empty()
    } else {
        rows_bytes(rows.drop_last()) + row_bytes(rows.last())
    }
}

/// Render the whole image to the plain-text pixel format, rows emitted top
/// to bottom.
pub fn render_image(
    camera: &Camera,
    meshes: &HittableList,
    image_width: u16,
    image_height: u16,
    samples: u16,
    max_bounces: u16,
    rng: &mut rand::rngs::StdRng,
) -> (buf: Vec<u8>)
    requires
        2 <= image_width,
        2 <= image_height,
        1 <= samples,
    ensures
        exists|rows: Seq<Seq<Color24b>>|
            #![auto]
            {
                &&& rows.len() == image_height as int
                &&& forall|k: int|
                    0 <= k < image_height as int ==> (#[trigger] rows[k]).len()
                        == image_width as int
                &&& forall|k: int, col: int|
                    0 <= k < image_height as int && 0 <= col < image_width as int
                        ==> row_pixel_outcome(
                        camera@,
                        meshes@,
                        col,
                        image_height as int - 1 - k,
                        image_width as int,
                        image_height as int,
                        samples as int,
                        max_bounces as nat,
                        #[trigger] rows[k][col],
                    )
                &&& buf@ == ppm_header_bytes(image_width as nat, image_height as nat)
                    + rows_bytes(rows)
            },
{
    let mut buf = ppm_header(image_width, image_height);
    let ghost header: Seq<u8> = buf@;
    let ghost mut rows_g: Seq<Seq<Color24b>> = Seq::empty();
    proof {
        assert(buf@ =~= header + rows_bytes(rows_g));
    }
    let mut j: u16 = image_height;
    while j > 0
        invariant
            2 <= image_width,
            2 <= image_height,
            1 <= samples,
            j <= image_height,
            header == ppm_header_bytes(image_width as nat, image_height as nat),
            rows_g.len() == image_height as int - j as int,
            forall|k: int|
                0 <= k < rows_g.len() ==> (#[trigger] rows_g[k]).len() == image_width as int,
            forall|k: int, col: int|
                0 <= k < rows_g.len() && 0 <= col < image_width as int ==> row_pixel_outcome(
                    camera@,
                    meshes@,
                    col,
                    image_height as int - 1 - k,
                    image_width as int,
                    image_height as int,
                    samples as int,
                    max_bounces as nat,
                    #[trigger] rows_g[k][col],
                ),
            buf@ == header + rows_bytes(rows_g),
        decreases j,
    {
        j = j - 1;
        let row = render_row(
            camera,
            meshes,
            j,
            image_width,
            image_height,
            samples,
            max_bounces,
            rng,
        );
        write_row(&row, &mut buf);
        proof {
            let ghost prev_rows = rows_g;
            rows_g = rows_g.push(row@);
            assert(rows_g.drop_last() =~= prev_rows);
            assert(rows_g.last() == row@);
            assert(buf@ =~= header + (rows_bytes(prev_rows) + row_bytes(row@)));
            assert(rows_bytes(rows_g) == rows_bytes(prev_rows) + row_bytes(row@));
            assert(forall|k: int|
                0 <= k < prev_rows.len() ==> #[trigger] rows_g[k] == prev_rows[k]);
            assert(rows_g[rows_g.len() - 1] == row@);
            assert(image_height as int - 1 - (rows_g.len() - 1) == j as int);
        }
    }
    buf
}

} // verus!
