//! The icon of the program file: a blue disc with a dot for the state.
use crate::ico::{encode_bmp_icon_image, encode_ico_images, IcoImage};
use vstd::prelude::*;

verus! {

/// The width and height of the icon.
pub const SIZE: usize = 32;

/// Four times the square of the distance between the middle of a pixel and the
/// middle of the picture.
pub open spec fn distance_measure(x: int, y: int) -> int {
    (2 * x - 31) * (2 * x - 31) + (2 * y - 31) * (2 * y - 31)
}

/// The greatest opacity up to `a` that a soft edge has at a distance, given by
/// its measure.
///
/// The edge fades from 255 to 0 over one pixel and a half.  An opacity is a
/// whole number of steps of 1/170 pixel, so one of `a` is reached as far as 85
/// times the root of the measure is at most `edge - a`.
pub open spec fn edge_opacity(edge: int, measure: int, a: nat) -> nat
    decreases a,
{
    if a == 0 || 7225 * measure <= (edge - a) * (edge - a) {
        a
    } else {
        edge_opacity(edge, measure, (a - 1) as nat)
    }
}

/// 170 times the radius of the disc, 15.5 pixels.
pub const DISC_EDGE: i64 = 2635;

/// 170 times the radius of the dot with its rim, 9.5 pixels.
pub const DOT_EDGE: i64 = 1615;

/// The color of the dot.
pub open spec fn accent(is_running: bool) -> Seq<u8> {
    if is_running {
        seq![76u8, 175u8, 80u8, 255u8]
    } else {
        seq![211u8, 47u8, 47u8, 255u8]
    }
}

/// A pixel of the icon: the dot within 8 pixels of the middle, its white rim
/// within 9.5, the disc within 14, its soft edge within 15.5.
pub open spec fn icon_pixel(is_running: bool, x: int, y: int) -> Seq<u8> {
    let measure = distance_measure(x, y);
    if measure <= 256 {
        accent(is_running)
    } else if measure <= 361 {
        seq![255u8, 255u8, 255u8, edge_opacity(DOT_EDGE as int, measure, 255) as u8]
    } else if measure <= 784 {
        seq![21u8, 101u8, 192u8, 255u8]
    } else if measure <= 961 {
        seq![21u8, 101u8, 192u8, edge_opacity(DISC_EDGE as int, measure, 255) as u8]
    } else {
        seq![0u8, 0u8, 0u8, 0u8]
    }
}

/// The first `n` pixels of the icon, row by row.
pub open spec fn icon_pixels(is_running: bool, n: nat) -> Seq<u8>
    decreases n,
{
    if n == 0 {
        Seq::empty()
    } else {
        icon_pixels(is_running, (n - 1) as nat) + icon_pixel(
            is_running,
            (n - 1) % (SIZE as int),
            (n - 1) / (SIZE as int),
        )
    }
}

fn find_edge_opacity(edge: i64, measure: i64) -> (r: u8)
    requires
        0 <= edge <= 10_000,
        0 <= measure <= 10_000,
    ensures
        r == edge_opacity(edge as int, measure as int, 255),
{
    let mut a: i64 = 255;
    proof {
        lemma_square_bound(edge - a);
    }
    while a > 0 && 7225 * measure > (edge - a) * (edge - a)
        invariant
            0 <= a <= 255,
            0 <= edge <= 10_000,
            0 <= measure <= 10_000,
            edge_opacity(edge as int, measure as int, 255) == edge_opacity(
                edge as int,
                measure as int,
                a as nat,
            ),
            0 <= (edge - a) * (edge - a) <= 100_000_000,
        decreases a,
    {
        a = a - 1;
        proof {
            lemma_square_bound(edge - a);
        }
    }
    a as u8
}

proof fn lemma_square_bound(v: int)
    requires
        -10_000 <= v <= 10_000,
    ensures
        0 <= v * v <= 100_000_000,
{
    assert(0 <= v * v <= 100_000_000) by (nonlinear_arith)
        requires
            -10_000 <= v <= 10_000,
    ;
}

fn push_pixel(out: &mut Vec<u8>, r: u8, g: u8, b: u8, a: u8)
    ensures
        final(out)@ == old(out)@ + seq![r, g, b, a],
{
    out.push(r);
    out.push(g);
    out.push(b);
    out.push(a);
    assert(out@ =~= old(out)@ + seq![r, g, b, a]);
}

/// The file of the icon.
pub open spec fn icon_file(is_running: bool) -> Seq<u8> {
    crate::ico::ico_file(
        seq![
            crate::ico::IcoImageModel {
                size: SIZE as int,
                data: crate::ico::bmp_image(
                    SIZE as int,
                    icon_pixels(is_running, (SIZE * SIZE) as nat),
                ),
            },
        ],
    )
}

/// The icon of the program file, as a file with one image.
pub fn generate_ico(is_running: bool) -> (ico: Vec<u8>)
    ensures
        ico@ == icon_file(is_running),
{
    let mut rgba: Vec<u8> = Vec::new();
    let mut n: usize = 0;
    while n < SIZE * SIZE
        invariant
            n <= SIZE * SIZE,
            rgba@.len() == 4 * n,
            rgba@ == icon_pixels(is_running, n as nat),
        decreases SIZE * SIZE - n,
    {
        let x: i64 = (n % SIZE) as i64;
        let y: i64 = (n / SIZE) as i64;
        proof {
            lemma_square_bound(2 * x - 31);
            lemma_square_bound(2 * y - 31);
            assert((2 * x - 31) * (2 * x - 31) <= 961) by (nonlinear_arith)
                requires
                    0 <= x <= 31,
            ;
            assert((2 * y - 31) * (2 * y - 31) <= 961) by (nonlinear_arith)
                requires
                    0 <= y <= 31,
            ;
        }
        let measure: i64 = (2 * x - 31) * (2 * x - 31) + (2 * y - 31) * (2 * y - 31);
        let ghost before = rgba@;
        if measure <= 256 {
            if is_running {
                push_pixel(&mut rgba, 76, 175, 80, 255);
            } else {
                push_pixel(&mut rgba, 211, 47, 47, 255);
            }
        } else if measure <= 361 {
            push_pixel(&mut rgba, 255, 255, 255, find_edge_opacity(DOT_EDGE, measure));
        } else if measure <= 784 {
            push_pixel(&mut rgba, 21, 101, 192, 255);
        } else if measure <= 961 {
            push_pixel(&mut rgba, 21, 101, 192, find_edge_opacity(DISC_EDGE, measure));
        } else {
            push_pixel(&mut rgba, 0, 0, 0, 0);
        }
        n = n + 1;
        assert(rgba@ == before + icon_pixel(is_running, x as int, y as int));
    }
    let data = encode_bmp_icon_image(SIZE, &rgba);
    let mut images: Vec<IcoImage> = Vec::new();
    images.push(IcoImage { size: SIZE, data });
    proof {
        let models = crate::ico::image_models(images@);
        assert(models =~= seq![
            crate::ico::IcoImageModel {
                size: SIZE as int,
                data: crate::ico::bmp_image(
                    SIZE as int,
                    icon_pixels(is_running, (SIZE * SIZE) as nat),
                ),
            },
        ]);
        reveal_with_fuel(crate::ico::contents, 2);
        crate::ico::lemma_image_length(SIZE as int, rgba@);
    }
    encode_ico_images(&images)
}

/// Within the soft edge the opacity is the one of the fading: the greatest that
/// the distance allows.
pub proof fn lemma_edge_opacity(edge: int, measure: int, a: nat, b: nat)
    requires
        b <= a,
        edge >= a,
        7225 * measure <= (edge - b) * (edge - b),
    ensures
        b <= edge_opacity(edge, measure, a) <= a,
        edge_opacity(edge, measure, a) > 0 ==> 7225 * measure <= (edge - edge_opacity(
            edge,
            measure,
            a,
        )) * (edge - edge_opacity(edge, measure, a)),
    decreases a,
{
    if a != 0 && 7225 * measure > (edge - a) * (edge - a) {
        lemma_edge_opacity(edge, measure, (a - 1) as nat, b);
    }
}

proof fn lemma_pixel_length(is_running: bool, x: int, y: int)
    ensures
        icon_pixel(is_running, x, y).len() == 4,
{
}

proof fn lemma_pixels(is_running: bool, n: nat, i: int, c: int)
    requires
        0 <= i < n,
        0 <= c < 4,
    ensures
        icon_pixels(is_running, n).len() == 4 * n,
        icon_pixels(is_running, n)[4 * i + c] == icon_pixel(is_running, i % 32, i / 32)[c],
    decreases n,
{
    lemma_pixel_length(is_running, (n - 1) % 32, (n - 1) / 32);
    if n == 1 {
        reveal_with_fuel(icon_pixels, 2);
    } else {
        lemma_pixels(
            is_running,
            (n - 1) as nat,
            if i < n - 1 {
                i
            } else {
                0
            },
            c,
        );
    }
}

/// The pixels of the icon stand row by row, each from the left.
pub proof fn lemma_pixel_in_place(is_running: bool, x: int, y: int, c: int)
    requires
        0 <= x < 32,
        0 <= y < 32,
        0 <= c < 4,
    ensures
        icon_pixels(is_running, 1024).len() == 4096,
        icon_pixels(is_running, 1024)[4 * (32 * y + x) + c] == icon_pixel(is_running, x, y)[c],
{
    lemma_pixels(is_running, 1024, 32 * y + x, c);
}

/// The icon looks the same from all sides.
pub proof fn lemma_symmetric(is_running: bool, x: int, y: int)
    ensures
        icon_pixel(is_running, x, y) == icon_pixel(is_running, 31 - x, y),
        icon_pixel(is_running, x, y) == icon_pixel(is_running, x, 31 - y),
        icon_pixel(is_running, x, y) == icon_pixel(is_running, y, x),
{
    assert(distance_measure(x, y) == distance_measure(31 - x, y)) by (nonlinear_arith);
    assert(distance_measure(x, y) == distance_measure(x, 31 - y)) by (nonlinear_arith);
    assert(distance_measure(x, y) == distance_measure(y, x)) by (nonlinear_arith);
}

/// The state shows within 8 pixels of the middle and nowhere else: green while
/// the scheduler runs, red while it does not.  A white rim follows up to 9.5
/// pixels, then blue up to 15.5, and beyond that nothing is seen.
pub proof fn lemma_regions(is_running: bool, x: int, y: int)
    ensures
        ({
            let (dx, dy) = (2 * x - 31, 2 * y - 31);
            let quarter = dx * dx + dy * dy;
            let pixel = icon_pixel(is_running, x, y);
            &&& quarter <= 16 * 16 ==> {
                &&& pixel[3] == 255
                &&& is_running <==> pixel[1] > pixel[0]
                &&& is_running ==> pixel[0] == 76 && pixel[1] == 175 && pixel[2] == 80
                &&& !is_running ==> pixel[0] == 211 && pixel[1] == 47 && pixel[2] == 47
            }
            &&& quarter > 16 * 16 ==> pixel == icon_pixel(!is_running, x, y)
            &&& 16 * 16 < quarter <= 19 * 19 ==> pixel[0] == 255 && pixel[1] == 255 && pixel[2]
                == 255
            &&& 19 * 19 < quarter <= 31 * 31 ==> pixel[0] == 21 && pixel[1] == 101 && pixel[2]
                == 192
            &&& 19 * 19 < quarter <= 28 * 28 ==> pixel[3] == 255
            &&& quarter > 31 * 31 ==> pixel[3] == 0
        }),
{
}

proof fn lemma_greatest_opacity(edge: int, measure: int, a: nat)
    requires
        edge >= a,
    ensures
        ({
            let r = edge_opacity(edge, measure, a);
            &&& r <= a
            &&& r == 0 || 7225 * measure <= (edge - r) * (edge - r)
            &&& r == a || 7225 * measure > (edge - (r + 1)) * (edge - (r + 1))
        }),
    decreases a,
{
    if a != 0 && 7225 * measure > (edge - a) * (edge - a) {
        lemma_greatest_opacity(edge, measure, (a - 1) as nat);
    }
}

/// On the edge of the dot and on that of the disc the opacity fades from 255 to
/// zero over the last pixel and a half, in proportion to the distance and rounded
/// down.  In units of 1/170 pixel the edges lie at 1615 and at 2635, and the
/// distance is 85 times the root of the measure.
pub proof fn lemma_fading(is_running: bool, x: int, y: int)
    ensures
        ({
            let (dx, dy) = (2 * x - 31, 2 * y - 31);
            let quarter = dx * dx + dy * dy;
            let a = icon_pixel(is_running, x, y)[3] as int;
            let edge = if quarter <= 361 {
                1615int
            } else {
                2635int
            };
            256 < quarter <= 361 || 784 < quarter <= 961 ==> {
                &&& a == 0 || 7225 * quarter <= (edge - a) * (edge - a)
                &&& a == 255 || 7225 * quarter > (edge - a - 1) * (edge - a - 1)
            }
        }),
{
    let measure = distance_measure(x, y);
    lemma_greatest_opacity(1615, measure, 255);
    lemma_greatest_opacity(2635, measure, 255);
    let (a, b) = (edge_opacity(1615, measure, 255), edge_opacity(2635, measure, 255));
    assert(1615 - (a + 1) == 1615 - a - 1 && 2635 - (b + 1) == 2635 - b - 1);
}

} // verus!
