use vstd::prelude::*;
use crate::circle::Circle;
use crate::color::Rgba;
use crate::geometry::Resolution;

verus! {

#[verifier::external_type_specification]
#[verifier::external_body]
pub struct ExColorImage(egui::ColorImage);

/// The pixels of an image, row by row from the top, as stored bytes.
pub uninterp spec fn image_pixels(img: egui::ColorImage) -> Seq<(u8, u8, u8, u8)>;

/// The `(width, height)` of an image in pixels.
pub uninterp spec fn image_size(img: egui::ColorImage) -> (usize, usize);

/// Relies on egui::ColorImage::filled, which sets `size` to the given size and
/// `pixels` to `width * height` copies of the color, and on
/// Color32::from_rgba_premultiplied, which stores the four bytes as given.
#[verifier::external_body]
fn image_filled(width: usize, height: usize, color: Rgba) -> (img: egui::ColorImage)
    requires
        width * height <= usize::MAX,
    ensures
        image_size(img) == (width, height),
        image_pixels(img) == Seq::new((width * height) as nat, |_k: int| color@),
{
    egui::ColorImage::filled(
        [width, height],
        egui::Color32::from_rgba_premultiplied(color.r, color.g, color.b, color.a),
    )
}

/// Relies on the public `pixels` field of egui::ColorImage: writing one
/// element changes that pixel alone and leaves `size` as it was.
#[verifier::external_body]
fn image_set_pixel(img: &mut egui::ColorImage, index: usize, color: Rgba)
    requires
        index < image_pixels(*old(img)).len(),
    ensures
        image_size(*final(img)) == image_size(*old(img)),
        image_pixels(*final(img)) == image_pixels(*old(img)).update(index as int, color@),
{
    img.pixels[index] = egui::Color32::from_rgba_premultiplied(color.r, color.g, color.b, color.a);
}

/// The color of the pixel at row-major index `k` of `res`.
pub open spec fn color_at_index(res: Resolution, circle: Circle, background: Rgba, k: int) -> Rgba {
    circle.pixel_color(res, background, k % (res.width as int), k / (res.width as int))
}

/// Draws `circle` over `background` into a fresh `width x height` image:
/// pixel `(i, j)`, stored at index `i + width * j`, takes the circle's color
/// when the circle covers its world position, and the background otherwise.
pub fn rasterize(res: &Resolution, circle: &Circle, background: Rgba) -> (img: egui::ColorImage)
    requires
        res.wf(),
    ensures
        image_size(img) == (res.width as usize, res.height as usize),
        image_pixels(img).len() == res.width * res.height,
        forall|i: int, j: int|
            res.in_range(i, j) ==> image_pixels(img)[i + res.width * j] == (#[trigger] circle.pixel_color(
                *res,
                background,
                i,
                j,
            ))@,
        forall|i: int, j: int|
            res.in_range(i, j) && #[trigger] circle.pixel_dist_sq(*res, i, j) < circle.pixel_radius_sq(
                *res,
            ) ==> image_pixels(img)[i + res.width * j] == circle.color@,
        forall|i: int, j: int|
            res.in_range(i, j) && #[trigger] circle.pixel_dist_sq(*res, i, j) > circle.pixel_radius_sq(
                *res,
            ) ==> image_pixels(img)[i + res.width * j] == background@,
{
    let w = res.width as usize;
    let h = res.height as usize;
    assert(w * h <= 0xffff_ffff) by (nonlinear_arith)
        requires w <= 0xffff, h <= 0xffff;
    let n = w * h;
    let mut img = image_filled(w, h, background);
    let mut k: usize = 0;
    let mut i: u16 = 0;
    let mut j: u16 = 0;
    while k < n
        invariant
            res.wf(),
            w == res.width,
            h == res.height,
            n == w * h,
            k <= n,
            i < w,
            k == j * w + i,
            k < n ==> j < h,
            image_size(img) == (w, h),
            image_pixels(img).len() == n,
            forall|t: int|
                #![trigger image_pixels(img)[t]]
                0 <= t < n ==> image_pixels(img)[t] == (if t < k {
                    color_at_index(*res, *circle, background, t)@
                } else {
                    background@
                }),
        decreases n - k,
    {
        proof {
            vstd::arithmetic::div_mod::lemma_fundamental_div_mod_converse(
                k as int,
                w as int,
                j as int,
                i as int,
            );
        }
        if circle.contains_pixel(res, i, j) {
            image_set_pixel(&mut img, k, circle.color);
        }
        assert(image_pixels(img)[k as int] == color_at_index(*res, *circle, background, k as int)@);
        let ghost j0 = j as int;
        k = k + 1;
        if i + 1 == res.width {
            i = 0;
            j = j + 1;
            assert((j0 + 1) * w == j0 * w + w) by (nonlinear_arith);
        } else {
            i = i + 1;
        }
        assert(k < n ==> j < h) by (nonlinear_arith)
            requires k == j * w + i, n == w * h, i < w;
    }
    proof {
        assert forall|a: int, b: int| res.in_range(a, b) implies image_pixels(img)[a + res.width * b]
            == (#[trigger] circle.pixel_color(*res, background, a, b))@ by {
            assert(0 <= a + w * b < n) by (nonlinear_arith)
                requires 0 <= a < w, 0 <= b < h, n == w * h;
            assert(a + w * b == b * w + a) by (nonlinear_arith);
            vstd::arithmetic::div_mod::lemma_fundamental_div_mod_converse(a + w * b, w as int, b, a);
            assert(color_at_index(*res, *circle, background, a + w * b) == circle.pixel_color(*res, background, a, b));
        }
        assert forall|a: int, b: int| res.in_range(a, b) implies image_pixels(img)[a + res.width * b]
            == (if #[trigger] circle.pixel_dist_sq(*res, a, b) <= circle.pixel_radius_sq(*res) {
                circle.color@
            } else {
                background@
            }) by {
            assert(image_pixels(img)[a + res.width * b] == circle.pixel_color(*res, background, a, b)@);
        }
    }
    img
}

} // verus!
