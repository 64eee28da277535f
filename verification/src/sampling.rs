//! Colours from a picture.
//!
//! Each body can be given the average colour of the part of a picture that it
//! covers. The picture is a grid of pixels, one pixel to the unit, with the
//! origin of the world at its middle and the world's y axis pointing up.
use crate::body::{Body, BodyState, Color};
use crate::scalar::{
    clamp, div_toward_zero, integer_sqrt, isqrt, lemma_isqrt_is_root, lemma_trunc_div_bounds,
    trunc_div, ONE, RADIUS_LIMIT,
};
use crate::store::BodyStore;
use crate::vector::{Vec2, Vector};
use std::collections::VecDeque;
use vstd::prelude::*;

verus! {

/// The largest width and height of a picture, in pixels.
pub const SIDE_LIMIT: usize = 1073741824;

/// A picture: rows of pixels, the top row first.
pub struct Image {
    width: usize,
    height: usize,
    pixels: Vec<Color>,
}

/// The mathematical value of an `Image`.
pub struct Picture {
    pub width: int,
    pub height: int,
    pub pixels: Seq<Color>,
}

impl Picture {
    /// The picture has at least one pixel, no side beyond `SIDE_LIMIT`, and
    /// as many pixels as its sides say.
    pub open spec fn valid(self) -> bool {
        &&& 1 <= self.width <= SIDE_LIMIT
        &&& 1 <= self.height <= SIDE_LIMIT
        &&& self.pixels.len() == self.width * self.height
    }

    /// Whether the picture has a pixel in column `x` of row `y`.
    pub open spec fn has(self, x: int, y: int) -> bool {
        0 <= x < self.width && 0 <= y < self.height
    }

    /// The pixel in column `x` of row `y`.
    pub open spec fn at(self, x: int, y: int) -> Color {
        self.pixels[y * self.width + x]
    }
}

/// What the pixel at `(x, y)` adds to the total of channel `ch`: its red,
/// green or blue value for the channels 0, 1 and 2, and one, to count it, for
/// any other channel. Where the picture has no such pixel, nothing.
pub open spec fn weight(pic: Picture, x: int, y: int, ch: int) -> int {
    if !pic.has(x, y) {
        0
    } else if ch == 0 {
        pic.at(x, y).r as int
    } else if ch == 1 {
        pic.at(x, y).g as int
    } else if ch == 2 {
        pic.at(x, y).b as int
    } else {
        1
    }
}

/// The total of channel `ch` over the pixels of column `x` in the rows from
/// `lo` up to, but not including, `hi`.
pub open spec fn column_total(pic: Picture, x: int, lo: int, hi: int, ch: int) -> int
    decreases hi - lo,
{
    if hi <= lo {
        0
    } else {
        column_total(pic, x, lo, hi - 1, ch) + weight(pic, x, hi - 1, ch)
    }
}

/// The radius in whole units.
pub open spec fn whole_radius(radius: int) -> int {
    radius / (ONE as int)
}

/// Half the height, in whole pixels, of a disk of the given radius at `k`
/// columns from its middle.
pub open spec fn half_height(radius: int, k: int) -> int {
    isqrt(radius * radius - (k * ONE) * (k * ONE)) / (ONE as int)
}

/// The total of channel `ch` over the columns of the disk around `(ci, cj)`
/// from its leftmost up to, but not including, the one at `k` columns from
/// the middle.
pub open spec fn disk_total(pic: Picture, ci: int, cj: int, radius: int, k: int, ch: int) -> int
    decreases k + whole_radius(radius),
{
    if k <= -whole_radius(radius) {
        0
    } else {
        disk_total(pic, ci, cj, radius, k - 1, ch) + column_total(
            pic,
            ci + (k - 1),
            cj - half_height(radius, k - 1),
            cj + half_height(radius, k - 1),
            ch,
        )
    }
}

/// The pixel under a point of the world: the point's whole units, counted
/// from the middle of the picture, with y pointing down, held inside the
/// picture.
pub open spec fn pixel_of(c: Vector, width: int, height: int) -> (int, int) {
    (
        clamp(trunc_div(c.x, ONE as int) + width / 2, 0, width - 1),
        clamp(trunc_div(-c.y, ONE as int) + height / 2, 0, height - 1),
    )
}

/// The total of channel `ch` over all pixels under the body.
pub open spec fn covered_total(pic: Picture, b: BodyState, ch: int) -> int {
    let p = pixel_of(b.position, pic.width, pic.height);
    disk_total(pic, p.0, p.1, b.radius, whole_radius(b.radius), ch)
}

/// The average colour of the pixels under the body: channel by channel, the
/// total over the number of pixels, rounded down. Black where the body covers
/// no pixel.
pub open spec fn average_color(pic: Picture, b: BodyState) -> Color {
    let n = covered_total(pic, b, 3);
    if n > 0 {
        Color {
            r: (covered_total(pic, b, 0) / n) as u8,
            g: (covered_total(pic, b, 1) / n) as u8,
            b: (covered_total(pic, b, 2) / n) as u8,
        }
    } else {
        Color { r: 0, g: 0, b: 0 }
    }
}

/// A column holds at most one pixel per row, and no channel exceeds 255.
pub proof fn lemma_column_bounds(pic: Picture, x: int, lo: int, hi: int, ch: int)
    ensures
        0 <= column_total(pic, x, lo, hi, 3) <= if hi > lo {
            hi - lo
        } else {
            0
        },
        0 <= column_total(pic, x, lo, hi, ch) <= 255 * column_total(pic, x, lo, hi, 3),
    decreases hi - lo,
{
    if hi > lo {
        lemma_column_bounds(pic, x, lo, hi - 1, ch);
    }
}

/// The half height of a disk is at most its radius in whole units.
pub proof fn lemma_half_height_bounds(radius: int, k: int)
    requires
        0 < radius,
        -whole_radius(radius) <= k <= whole_radius(radius),
    ensures
        0 <= half_height(radius, k) <= whole_radius(radius),
        radius * radius - (k * ONE) * (k * ONE) >= 0,
{
    let one = ONE as int;
    let w = radius / one;
    let kk = k * one;
    assert(w * one <= radius) by (nonlinear_arith)
        requires
            w == radius / one,
            one > 0,
            radius > 0,
    ;
    assert(-radius <= kk <= radius) by (nonlinear_arith)
        requires
            kk == k * one,
            -w <= k <= w,
            w * one <= radius,
            one > 0,
    ;
    let n = radius * radius - kk * kk;
    assert(0 <= n <= radius * radius) by (nonlinear_arith)
        requires
            n == radius * radius - kk * kk,
            -radius <= kk <= radius,
    ;
    lemma_isqrt_is_root(n);
    let s = isqrt(n);
    if s > radius {
        assert(s * s > radius * radius) by (nonlinear_arith)
            requires
                s > radius,
                radius > 0,
        ;
    }
    assert(0 <= s / one <= radius / one) by (nonlinear_arith)
        requires
            0 <= s <= radius,
            one > 0,
    ;
}

/// A disk holds at most `2 * whole_radius` pixels in each of its columns,
/// and no channel exceeds 255.
pub proof fn lemma_disk_bounds(pic: Picture, ci: int, cj: int, radius: int, k: int, ch: int)
    requires
        0 < radius,
        k <= whole_radius(radius),
    ensures
        0 <= disk_total(pic, ci, cj, radius, k, 3) <= if k > -whole_radius(radius) {
            (k + whole_radius(radius)) * (2 * whole_radius(radius))
        } else {
            0
        },
        0 <= disk_total(pic, ci, cj, radius, k, ch) <= 255 * disk_total(pic, ci, cj, radius, k, 3),
    decreases k + whole_radius(radius),
{
    let w = whole_radius(radius);
    if k > -w {
        lemma_disk_bounds(pic, ci, cj, radius, k - 1, ch);
        lemma_half_height_bounds(radius, k - 1);
        let h = half_height(radius, k - 1);
        lemma_column_bounds(pic, ci + (k - 1), cj - h, cj + h, ch);
        assert((k - 1 + w) * (2 * w) + 2 * w == (k + w) * (2 * w)) by (nonlinear_arith);
    }
}

impl View for Image {
    type V = Picture;

    closed spec fn view(&self) -> Picture {
        Picture { width: self.width as int, height: self.height as int, pixels: self.pixels@ }
    }
}

impl Image {
    /// Whether the picture satisfies the invariant of `Picture::valid`.
    pub open spec fn wf(&self) -> bool {
        self@.valid()
    }

    /// The picture of the given sides and pixels, row by row from the top, or
    /// `None` where a side is zero or beyond `SIDE_LIMIT`, or the number of
    /// pixels is not the product of the sides.
    pub fn new(width: usize, height: usize, pixels: Vec<Color>) -> (r: Option<Image>)
        ensures
            r is Some <==> (Picture {
                width: width as int,
                height: height as int,
                pixels: pixels@,
            }).valid(),
            r is Some ==> r->Some_0.wf() && r->Some_0@ == (Picture {
                width: width as int,
                height: height as int,
                pixels: pixels@,
            }),
    {
        if width == 0 || width > SIDE_LIMIT || height == 0 || height > SIDE_LIMIT {
            return None;
        }
        assert(width * height <= SIDE_LIMIT * SIDE_LIMIT) by (nonlinear_arith)
            requires
                0 < width <= SIDE_LIMIT,
                0 < height <= SIDE_LIMIT,
        ;
        if pixels.len() as u128 != (width as u128) * (height as u128) {
            return None;
        }
        Some(Image { width, height, pixels })
    }

    /// The width in pixels.
    pub fn width(&self) -> (w: usize)
        ensures
            w == self@.width,
    {
        self.width
    }

    /// The height in pixels.
    pub fn height(&self) -> (h: usize)
        ensures
            h == self@.height,
    {
        self.height
    }

    /// The pixel in column `x` of row `y`, or `None` where the picture has no
    /// such pixel.
    pub fn pixel(&self, x: i64, y: i64) -> (c: Option<Color>)
        requires
            self.wf(),
        ensures
            c is Some <==> self@.has(x as int, y as int),
            c is Some ==> c->Some_0 == self@.at(x as int, y as int),
    {
        if x < 0 || y < 0 || x as u64 >= self.width as u64 || y as u64 >= self.height as u64 {
            return None;
        }
        let w = self.width;
        let h = self.height;
        let xi = x as usize;
        let yi = y as usize;
        let len = self.pixels.len();
        assert(len == w * h);
        assert(0 <= yi * w <= yi * w + xi < w * h) by (nonlinear_arith)
            requires
                0 <= xi < w,
                0 <= yi < h,
        ;
        Some(self.pixels[yi * w + xi])
    }
}

/// The pixel of `image` under a point of the world.
pub fn coord_to_pix(c: Vec2, image: &Image) -> (p: (i64, i64))
    requires
        image.wf(),
    ensures
        (p.0 as int, p.1 as int) == pixel_of(c@, image@.width, image@.height),
        image@.has(p.0 as int, p.1 as int),
{
    let width = image.width();
    let height = image.height();
    let x: i128 = div_toward_zero(c.x as i128, ONE as i128) + (width / 2) as i128;
    let y: i128 = div_toward_zero(-(c.y as i128), ONE as i128) + (height / 2) as i128;
    proof {
        lemma_trunc_div_bounds(c.x as int, ONE as int);
        lemma_trunc_div_bounds(-(c.y as int), ONE as int);
    }
    let px: i128 = if x < 0 {
        0
    } else if x > width as i128 - 1 {
        width as i128 - 1
    } else {
        x
    };
    let py: i128 = if y < 0 {
        0
    } else if y > height as i128 - 1 {
        height as i128 - 1
    } else {
        y
    };
    (px as i64, py as i64)
}

/// The totals of the three colour channels and the number of pixels.
struct Totals {
    red: u64,
    green: u64,
    blue: u64,
    count: u64,
}

impl Totals {
    /// Whether the totals are the given ones.
    spec fn are(self, r: int, g: int, b: int, n: int) -> bool {
        self.red == r && self.green == g && self.blue == b && self.count == n
    }
}

/// The average colour of the pixels under `body`.
pub fn sample(image: &Image, body: &Body) -> (c: Color)
    requires
        image.wf(),
        body.wf(),
    ensures
        c == average_color(image@, body@),
{
    let centre = coord_to_pix(body.position(), image);
    let ci = centre.0;
    let cj = centre.1;
    let radius = body.radius();
    let ghost pic = image@;
    let ghost r = radius as int;
    let w: i64 = radius / ONE;
    assert(radius * radius <= 4835703278458516698824704) by (nonlinear_arith)
        requires
            0 < radius <= 2199023255552,
    ;
    let rr: u128 = (radius as u128) * (radius as u128);
    assert(0 <= w <= 512 && w == whole_radius(r)) by (nonlinear_arith)
        requires
            w == radius / ONE,
            0 < radius <= RADIUS_LIMIT,
            ONE == 4294967296,
            RADIUS_LIMIT == 2199023255552,
            r == radius,
            whole_radius(r) == r / (ONE as int),
    ;
    let mut t = Totals { red: 0, green: 0, blue: 0, count: 0 };
    let mut k: i64 = -w;
    while k < w
        invariant
            image.wf(),
            pic == image@,
            r == radius,
            0 < radius <= RADIUS_LIMIT,
            rr == radius * radius,
            rr <= 4835703278458516698824704,
            0 <= w <= 512,
            w == whole_radius(r),
            -w <= k <= w,
            0 <= ci < SIDE_LIMIT,
            0 <= cj < SIDE_LIMIT,
            t.are(
                disk_total(pic, ci as int, cj as int, r, k as int, 0),
                disk_total(pic, ci as int, cj as int, r, k as int, 1),
                disk_total(pic, ci as int, cj as int, r, k as int, 2),
                disk_total(pic, ci as int, cj as int, r, k as int, 3),
            ),
        decreases w - k,
    {
        proof {
            lemma_half_height_bounds(r, k as int);
            lemma_disk_bounds(pic, ci as int, cj as int, r, k as int, 0);
            lemma_disk_bounds(pic, ci as int, cj as int, r, k as int, 1);
            lemma_disk_bounds(pic, ci as int, cj as int, r, k as int, 2);
            assert((k + w) * (2 * w) <= 1024 * 1024) by (nonlinear_arith)
                requires
                    -w <= k <= w,
                    0 <= w <= 512,
            ;
        }
        let kk: i128 = (k as i128) * (ONE as i128);
        assert(kk * kk == (k * ONE) * (k * ONE) && 0 <= kk * kk <= rr) by (nonlinear_arith)
            requires
                kk == k * ONE,
                rr == radius * radius,
                radius * radius - (k * ONE) * (k * ONE) >= 0,
        ;
        let h: i64 = (integer_sqrt(rr - (kk * kk) as u128) / (ONE as u64)) as i64;
        assert(h == half_height(r, k as int));
        let x: i64 = ci + k;
        let mut y: i64 = cj - h;
        let ghost lo = (cj - h) as int;
        while y < cj + h
            invariant
                image.wf(),
                pic == image@,
                0 <= h <= 512,
                0 <= cj < SIDE_LIMIT,
                lo == cj - h,
                lo <= y <= cj + h,
                x == ci + k,
                0 <= t.count <= 1024 * 1024 + (y - lo),
                t.red <= 255 * t.count,
                t.green <= 255 * t.count,
                t.blue <= 255 * t.count,
                t.are(
                    disk_total(pic, ci as int, cj as int, r, k as int, 0) + column_total(
                        pic,
                        x as int,
                        lo,
                        y as int,
                        0,
                    ),
                    disk_total(pic, ci as int, cj as int, r, k as int, 1) + column_total(
                        pic,
                        x as int,
                        lo,
                        y as int,
                        1,
                    ),
                    disk_total(pic, ci as int, cj as int, r, k as int, 2) + column_total(
                        pic,
                        x as int,
                        lo,
                        y as int,
                        2,
                    ),
                    disk_total(pic, ci as int, cj as int, r, k as int, 3) + column_total(
                        pic,
                        x as int,
                        lo,
                        y as int,
                        3,
                    ),
                ),
            decreases cj + h - y,
        {
            match image.pixel(x, y) {
                Some(p) => {
                    t.red = t.red + p.r as u64;
                    t.green = t.green + p.g as u64;
                    t.blue = t.blue + p.b as u64;
                    t.count = t.count + 1;
                },
                None => {},
            }
            y += 1;
        }
        k += 1;
    }
    proof {
        lemma_disk_bounds(pic, ci as int, cj as int, r, w as int, 0);
        lemma_disk_bounds(pic, ci as int, cj as int, r, w as int, 1);
        lemma_disk_bounds(pic, ci as int, cj as int, r, w as int, 2);
    }
    if t.count > 0 {
        let n = t.count;
        assert(t.red / n <= 255 && t.green / n <= 255 && t.blue / n <= 255) by (nonlinear_arith)
            requires
                n > 0,
                t.red <= 255 * n,
                t.green <= 255 * n,
                t.blue <= 255 * n,
        ;
        Color { r: (t.red / n) as u8, g: (t.green / n) as u8, b: (t.blue / n) as u8 }
    } else {
        Color { r: 0, g: 0, b: 0 }
    }
}

/// The colour under each body of the store, in store order.
pub fn get_colors(store: &BodyStore, image: &Image) -> (out: VecDeque<Color>)
    requires
        store.wf(),
        image.wf(),
    ensures
        out@.len() == store@.len(),
        forall|i: int| 0 <= i < store@.len() ==> out@[i] == average_color(image@, store@[i]),
{
    let mut out: VecDeque<Color> = VecDeque::new();
    let n = store.len();
    let mut i: usize = 0;
    while i < n
        invariant
            i <= n,
            n == store@.len(),
            store.wf(),
            image.wf(),
            out@.len() == i,
            forall|k: int| 0 <= k < i ==> out@[k] == average_color(image@, store@[k]),
        decreases n - i,
    {
        let b = store.get(i);
        out.push_back(sample(image, &b));
        i += 1;
    }
    out
}

} // verus!
