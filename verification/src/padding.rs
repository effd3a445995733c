//! Padding of planes to the block grid, and the way back.

use crate::float::Float32;
use vstd::prelude::*;

verus! {

/// Rounds `n` up to the next multiple of `align`.
pub fn align_up(n: u32, align: u32) -> (r: u32)
    requires
        align > 0,
        n % align == 0 || n + (align - n % align) <= u32::MAX,
    ensures
        r % align == 0,
        n <= r < n + align,
{
    let rest: u32 = n % align;
    if rest == 0 {
        n
    } else {
        let ghost q = (n / align) as int;
        proof {
            vstd::arithmetic::div_mod::lemma_fundamental_div_mod(n as int, align as int);
            assert(n + (align - rest) == align * (q + 1)) by (nonlinear_arith)
                requires
                    n == align * q + rest,
            ;
            vstd::arithmetic::div_mod::lemma_mod_multiples_basic(q + 1, align as int);
            assert((q + 1) * align == align * (q + 1)) by (nonlinear_arith);
        }
        n + (align - rest)
    }
}

/// The smaller of two positions.
pub open spec fn at_most(x: int, last: int) -> int {
    if x <= last {
        x
    } else {
        last
    }
}

/// A plane of `w` by `h` pixels grown to `pw` by `ph`, the last column
/// repeated to the right and the last row downwards.
pub open spec fn padded(src: Seq<Float32>, w: int, h: int, pw: int, ph: int) -> Seq<Float32> {
    Seq::new(
        (pw * ph) as nat,
        |i: int| src[at_most(i / pw, h - 1) * w + at_most(i % pw, w - 1)],
    )
}

/// The top left `w` by `h` pixels of a plane that is `pw` pixels wide.
pub open spec fn cropped(plane: Seq<Float32>, pw: int, w: int, h: int) -> Seq<Float32> {
    Seq::new((w * h) as nat, |i: int| plane[(i / w) * pw + i % w])
}

/// The row and column of the pixel with index `y * w + x`.
proof fn lemma_pixel(w: int, x: int, y: int)
    requires
        0 <= x < w,
        0 <= y,
    ensures
        (y * w + x) / w == y,
        (y * w + x) % w == x,
        y * w + x >= 0,
{
    vstd::arithmetic::div_mod::lemma_fundamental_div_mod_converse(y * w + x, w, y, x);
    assert(y * w >= 0) by (nonlinear_arith)
        requires
            y >= 0,
            w > 0,
    ;
}

/// Rows before row `y` fit, and so does row `y`.
proof fn lemma_row(w: int, h: int, y: int)
    requires
        0 <= y < h,
        w >= 0,
    ensures
        0 <= y * w,
        y * w + w <= w * h,
        (y + 1) * w == y * w + w,
{
    assert(y * w >= 0 && y * w + w <= w * h && (y + 1) * w == y * w + w) by (nonlinear_arith)
        requires
            0 <= y < h,
            w >= 0,
    ;
}

/// Grows a plane of `width` by `height` pixels to `padded_width` by
/// `padded_height`, repeating the last column and the last row.
pub fn pad_to_alignment(
    src: &[Float32],
    width: usize,
    height: usize,
    padded_width: usize,
    padded_height: usize,
) -> (r: Vec<Float32>)
    requires
        src@.len() == width * height,
        width <= padded_width,
        height <= padded_height,
        (width > 0 && height > 0) || (width == padded_width && height == padded_height),
        padded_width * padded_height <= usize::MAX,
    ensures
        r@ == padded(
            src@,
            width as int,
            height as int,
            padded_width as int,
            padded_height as int,
        ),
{
    let mut out: Vec<Float32> = Vec::new();
    let ghost full = padded(
        src@,
        width as int,
        height as int,
        padded_width as int,
        padded_height as int,
    );
    let n: usize = src.len();
    let mut y: usize = 0;
    assert(0 * padded_width == 0);
    while y < padded_height
        invariant
            src@.len() == width * height,
            n == src@.len(),
            width <= padded_width,
            height <= padded_height,
            (width > 0 && height > 0) || (width == padded_width && height == padded_height),
            padded_width * padded_height <= usize::MAX,
            y <= padded_height,
            full == padded(
                src@,
                width as int,
                height as int,
                padded_width as int,
                padded_height as int,
            ),
            out@.len() == y * padded_width,
            out@ =~= full.take(y * padded_width),
        decreases padded_height - y,
    {
        proof {
            lemma_row(padded_width as int, padded_height as int, y as int);
        }
        let row: usize = if y < height {
            y
        } else {
            height - 1
        };
        proof {
            lemma_row(width as int, height as int, row as int);
        }
        let mut x: usize = 0;
        while x < padded_width
            invariant
                src@.len() == width * height,
                n == src@.len(),
                width <= padded_width,
                width > 0 || width == padded_width,
                y < padded_height,
                row == at_most(y as int, height - 1),
                0 <= row * width,
                row * width + width <= width * height,
                padded_width * padded_height <= usize::MAX,
                y * padded_width + padded_width <= padded_width * padded_height,
                y * padded_width >= 0,
                x <= padded_width,
                full == padded(
                    src@,
                    width as int,
                    height as int,
                    padded_width as int,
                    padded_height as int,
                ),
                out@.len() == y * padded_width + x,
                out@ =~= full.take(y * padded_width + x),
            decreases padded_width - x,
        {
            proof {
                lemma_pixel(padded_width as int, x as int, y as int);
            }
            let col: usize = if x < width {
                x
            } else {
                width - 1
            };
            out.push(src[row * width + col]);
            x = x + 1;
        }
        y = y + 1;
    }
    proof {
        assert(padded_height * padded_width == padded_width * padded_height) by (nonlinear_arith);
        assert(full.take(padded_height * padded_width) =~= full);
    }
    out
}

/// Takes the top left `width` by `height` pixels of a plane.
pub fn crop_to_original(plane: &[Float32], padded_width: usize, width: usize, height: usize) -> (r:
    Vec<Float32>)
    requires
        width <= padded_width,
        height > 0 ==> (height - 1) * padded_width + width <= plane@.len(),
    ensures
        r@ == cropped(plane@, padded_width as int, width as int, height as int),
{
    let mut out: Vec<Float32> = Vec::new();
    let ghost full = cropped(plane@, padded_width as int, width as int, height as int);
    let n: usize = plane.len();
    let mut y: usize = 0;
    assert(0 * width == 0);
    while y < height
        invariant
            n == plane@.len(),
            width <= padded_width,
            height > 0 ==> (height - 1) * padded_width + width <= plane@.len(),
            y <= height,
            full == cropped(plane@, padded_width as int, width as int, height as int),
            out@.len() == y * width,
            out@ =~= full.take(y * width),
        decreases height - y,
    {
        proof {
            lemma_row(width as int, height as int, y as int);
            lemma_row(padded_width as int, height as int, y as int);
            assert(y * padded_width <= (height - 1) * padded_width) by (nonlinear_arith)
                requires
                    y <= height - 1,
                    padded_width >= 0,
            ;
        }
        let start: usize = y * padded_width;
        let mut x: usize = 0;
        while x < width
            invariant
                n == plane@.len(),
                start == y * padded_width,
                start + width <= n,
                y < height,
                x <= width <= padded_width,
                y * width >= 0,
                y * width + width <= width * height,
                full == cropped(plane@, padded_width as int, width as int, height as int),
                out@.len() == y * width + x,
                out@ =~= full.take(y * width + x),
            decreases width - x,
        {
            proof {
                lemma_pixel(width as int, x as int, y as int);
            }
            out.push(plane[start + x]);
            x = x + 1;
        }
        y = y + 1;
    }
    proof {
        assert(height * width == width * height) by (nonlinear_arith);
        assert(full.take(height * width) =~= full);
    }
    out
}

/// Cropping a padded plane to its former size gives back the plane.
pub proof fn law_crop_undoes_pad(src: Seq<Float32>, w: int, h: int, pw: int, ph: int)
    requires
        0 < w <= pw,
        0 < h <= ph,
        src.len() == w * h,
    ensures
        cropped(padded(src, w, h, pw, ph), pw, w, h) == src,
{
    let p = padded(src, w, h, pw, ph);
    let c = cropped(p, pw, w, h);
    assert forall|i: int| 0 <= i < w * h implies c[i] == src[i] by {
        let y = i / w;
        let x = i % w;
        vstd::arithmetic::div_mod::lemma_fundamental_div_mod(i, w);
        assert(0 <= y < h) by (nonlinear_arith)
            requires
                i == w * y + x,
                0 <= x < w,
                0 <= i < w * h,
        ;
        lemma_pixel(pw, x, y);
        lemma_row(pw, ph, y);
        assert(w * y == y * w) by (nonlinear_arith);
        assert(c[i] == p[y * pw + x]);
        assert(p[y * pw + x] == src[y * w + x]);
    }
    assert(c =~= src);
}

/// Every pixel of a padded plane is a pixel of the plane.
pub proof fn law_padding_invents_nothing(
    src: Seq<Float32>,
    w: int,
    h: int,
    pw: int,
    ph: int,
    i: int,
)
    requires
        0 < w <= pw,
        0 < h <= ph,
        src.len() == w * h,
        0 <= i < pw * ph,
    ensures
        src.contains(padded(src, w, h, pw, ph)[i]),
{
    let y = at_most(i / pw, h - 1);
    let x = at_most(i % pw, w - 1);
    vstd::arithmetic::div_mod::lemma_fundamental_div_mod(i, pw);
    assert(i / pw >= 0) by (nonlinear_arith)
        requires
            i >= 0,
            pw > 0,
    ;
    lemma_row(w, h, y);
    assert(padded(src, w, h, pw, ph)[i] == src[y * w + x]);
}

/// Interleaved red, green and blue, as one sequence per channel.
pub open spec fn channel(rgb: Seq<u8>, c: int) -> Seq<u8> {
    Seq::new((rgb.len() / 3) as nat, |i: int| rgb[3 * i + c])
}

/// Three channels interleaved pixel by pixel.
pub open spec fn interleaved(r: Seq<u8>, g: Seq<u8>, b: Seq<u8>) -> Seq<u8> {
    Seq::new(
        3 * r.len(),
        |i: int|
            if i % 3 == 0 {
                r[i / 3]
            } else if i % 3 == 1 {
                g[i / 3]
            } else {
                b[i / 3]
            },
    )
}

/// Splits interleaved pixels into their red, green and blue channels.
pub fn split_channels(rgb: &[u8]) -> (r: (Vec<u8>, Vec<u8>, Vec<u8>))
    requires
        rgb@.len() % 3 == 0,
    ensures
        r.0@ == channel(rgb@, 0),
        r.1@ == channel(rgb@, 1),
        r.2@ == channel(rgb@, 2),
{
    let n: usize = rgb.len() / 3;
    let mut red: Vec<u8> = Vec::new();
    let mut green: Vec<u8> = Vec::new();
    let mut blue: Vec<u8> = Vec::new();
    let mut i: usize = 0;
    while i < n
        invariant
            3 * n == rgb@.len(),
            rgb@.len() <= usize::MAX,
            i <= n,
            red@ =~= channel(rgb@, 0).take(i as int),
            green@ =~= channel(rgb@, 1).take(i as int),
            blue@ =~= channel(rgb@, 2).take(i as int),
        decreases n - i,
    {
        red.push(rgb[3 * i]);
        green.push(rgb[3 * i + 1]);
        blue.push(rgb[3 * i + 2]);
        i = i + 1;
    }
    assert(channel(rgb@, 0).take(n as int) =~= channel(rgb@, 0));
    assert(channel(rgb@, 1).take(n as int) =~= channel(rgb@, 1));
    assert(channel(rgb@, 2).take(n as int) =~= channel(rgb@, 2));
    (red, green, blue)
}

/// Interleaves three channels pixel by pixel.
pub fn join_channels(r: &[u8], g: &[u8], b: &[u8]) -> (out: Vec<u8>)
    requires
        r@.len() == g@.len(),
        r@.len() == b@.len(),
        3 * r@.len() <= usize::MAX,
    ensures
        out@ == interleaved(r@, g@, b@),
{
    let n: usize = r.len();
    let mut out: Vec<u8> = Vec::new();
    let ghost full = interleaved(r@, g@, b@);
    let mut i: usize = 0;
    while i < n
        invariant
            n == r@.len(),
            n == g@.len(),
            n == b@.len(),
            3 * n <= usize::MAX,
            i <= n,
            full == interleaved(r@, g@, b@),
            out@ =~= full.take(3 * i),
        decreases n - i,
    {
        assert((3 * i) / 3 == i && (3 * i) % 3 == 0);
        assert((3 * i + 1) / 3 == i && (3 * i + 1) % 3 == 1);
        assert((3 * i + 2) / 3 == i && (3 * i + 2) % 3 == 2);
        out.push(r[i]);
        out.push(g[i]);
        out.push(b[i]);
        i = i + 1;
    }
    assert(full.take(3 * n) =~= full);
    out
}

/// Joining the channels of an image gives back the image.
pub proof fn law_join_undoes_split(rgb: Seq<u8>)
    requires
        rgb.len() % 3 == 0,
    ensures
        interleaved(channel(rgb, 0), channel(rgb, 1), channel(rgb, 2)) == rgb,
{
    assert(interleaved(channel(rgb, 0), channel(rgb, 1), channel(rgb, 2)) =~= rgb);
}

/// The channels of joined channels are the channels.
pub proof fn law_split_undoes_join(r: Seq<u8>, g: Seq<u8>, b: Seq<u8>)
    requires
        r.len() == g.len(),
        r.len() == b.len(),
    ensures
        channel(interleaved(r, g, b), 0) == r,
        channel(interleaved(r, g, b), 1) == g,
        channel(interleaved(r, g, b), 2) == b,
{
    let all = interleaved(r, g, b);
    assert(channel(all, 0) =~= r);
    assert(channel(all, 1) =~= g);
    assert(channel(all, 2) =~= b);
}

/// A plane stays as it is where it was, and beyond it the last column and the
/// last row go on: to the right every pixel is that of the last column in its
/// row, and further down that of the last row in its column.
pub proof fn law_padding_repeats_the_edge(
    src: Seq<Float32>,
    w: int,
    h: int,
    pw: int,
    ph: int,
    x: int,
    y: int,
)
    requires
        0 < w <= pw,
        0 < h <= ph,
        src.len() == w * h,
        0 <= x < pw,
        0 <= y < ph,
    ensures
        ({
            let p = padded(src, w, h, pw, ph);
            &&& p.len() == pw * ph
            &&& x < w && y < h ==> p[y * pw + x] == src[y * w + x]
            &&& x >= w ==> p[y * pw + x] == p[y * pw + w - 1]
            &&& y >= h ==> p[y * pw + x] == p[(h - 1) * pw + x]
        }),
{
    lemma_row(pw, ph, y);
    lemma_row(pw, ph, h - 1);
    lemma_pixel(pw, x, y);
    lemma_pixel(pw, w - 1, y);
    lemma_pixel(pw, x, h - 1);
    assert(y * pw + (w - 1) == y * pw + w - 1);
}

} // verus!
