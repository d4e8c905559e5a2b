//! The window icon, drawn in code: an SD card with a beveled corner and gold
//! contacts, whose body carries four stripes in the colors of slot states.

use vstd::prelude::*;

verus! {

/// Width and height of the icon.
pub const ICON_SIZE: usize = 64;

pub type Rgba = (u8, u8, u8, u8);

pub open spec fn edge_color() -> Rgba {
    (0x51, 0x87, 0xbd, 0xff)
}

pub open spec fn body_color() -> Rgba {
    (0x22, 0x3a, 0x55, 0xff)
}

pub open spec fn gold_color() -> Rgba {
    (0xd9, 0xa8, 0x21, 0xff)
}

/// The stripes, top to bottom: matches, written, modified, empty.
pub open spec fn stripe_color(stripe: int) -> Rgba {
    if stripe == 0 {
        (0x38, 0xa0, 0x38, 0xff)
    } else if stripe == 1 {
        (0x5a, 0x9b, 0xd8, 0xff)
    } else if stripe == 2 {
        (0xd0, 0x80, 0x20, 0xff)
    } else {
        (0x6e, 0x78, 0x84, 0xff)
    }
}

/// The corner that the bevel takes away; `inset` pulls it inward.
pub open spec fn cut(x: int, y: int, inset: int) -> bool {
    x - (40 - inset) > y - 6
}

pub open spec fn inside(x: int, y: int, x0: int, y0: int, x1: int, y1: int, inset: int) -> bool {
    x0 <= x < x1 && y0 <= y < y1 && !cut(x, y, inset)
}

/// A pixel: stripes lie on the contacts, those on the body, that on the edge.
pub open spec fn pixel(x: int, y: int) -> Rgba {
    if inside(x, y, 18, 22, 46, 54, 0) && (y - 22) % 8 < 5 {
        stripe_color((y - 22) / 8)
    } else if inside(x, y, 18, 9, 45, 16, 4) && (x - 18) % 6 < 3 {
        gold_color()
    } else if inside(x, y, 15, 7, 49, 57, 4) {
        body_color()
    } else if inside(x, y, 12, 4, 52, 60, 0) {
        edge_color()
    } else {
        (0, 0, 0, 0)
    }
}

fn in_box(x: i32, y: i32, x0: i32, y0: i32, x1: i32, y1: i32, inset: i32) -> (r: bool)
    requires
        0 <= x < 64,
        0 <= y < 64,
        0 <= inset <= 40,
    ensures
        r == inside(x as int, y as int, x0 as int, y0 as int, x1 as int, y1 as int, inset as int),
{
    x0 <= x && x < x1 && y0 <= y && y < y1 && !(x - (40 - inset) > y - 6)
}

fn pixel_at(x: i32, y: i32) -> (r: Rgba)
    requires
        0 <= x < 64,
        0 <= y < 64,
    ensures
        r == pixel(x as int, y as int),
{
    if in_box(x, y, 18, 22, 46, 54, 0) && (y - 22) % 8 < 5 {
        let stripe: i32 = (y - 22) / 8;
        if stripe == 0 {
            (0x38, 0xa0, 0x38, 0xff)
        } else if stripe == 1 {
            (0x5a, 0x9b, 0xd8, 0xff)
        } else if stripe == 2 {
            (0xd0, 0x80, 0x20, 0xff)
        } else {
            (0x6e, 0x78, 0x84, 0xff)
        }
    } else if in_box(x, y, 18, 9, 45, 16, 4) && (x - 18) % 6 < 3 {
        (0xd9, 0xa8, 0x21, 0xff)
    } else if in_box(x, y, 15, 7, 49, 57, 4) {
        (0x22, 0x3a, 0x55, 0xff)
    } else if in_box(x, y, 12, 4, 52, 60, 0) {
        (0x51, 0x87, 0xbd, 0xff)
    } else {
        (0, 0, 0, 0)
    }
}

/// The four bytes of pixel `k`, row by row.
pub open spec fn icon_byte(i: int) -> u8 {
    let p = pixel((i / 4) % 64, (i / 4) / 64);
    let c = i % 4;
    if c == 0 {
        p.0
    } else if c == 1 {
        p.1
    } else if c == 2 {
        p.2
    } else {
        p.3
    }
}

/// The icon's pixels: red, green, blue and opacity, row by row.
pub fn icon_rgba() -> (r: Vec<u8>)
    ensures
        r@.len() == ICON_SIZE * ICON_SIZE * 4,
        forall|i: int| 0 <= i < r@.len() ==> #[trigger] r@[i] == icon_byte(i),
{
    let mut out: Vec<u8> = Vec::new();
    let mut k: usize = 0;
    while k < 4096
        invariant
            k <= 4096,
            out@.len() == 4 * k,
            forall|i: int| 0 <= i < out@.len() ==> #[trigger] out@[i] == icon_byte(i),
        decreases 4096 - k,
    {
        let x: i32 = (k % 64) as i32;
        let y: i32 = (k / 64) as i32;
        let p = pixel_at(x, y);
        out.push(p.0);
        out.push(p.1);
        out.push(p.2);
        out.push(p.3);
        proof {
            let b = 4 * k as int;
            assert(b / 4 == k && (b + 1) / 4 == k && (b + 2) / 4 == k && (b + 3) / 4 == k);
        }
        k = k + 1;
    }
    out
}

} // verus!
