use vstd::prelude::*;

verus! {

/// A command to the trail overlay.
#[derive(Debug, Clone, Copy, PartialEq, Eq, Structural)]
pub enum Cmd {
    Start,
    Move(i32, i32),
    Finish,
    Quit,
}

/// The surface size after the compositor configured the layer surface to `new_w` x `new_h`,
/// and whether the pixel pool must be dropped: a real size is taken (the pool goes when it
/// changes); a zero size keeps the current one, or falls back to 1920 x 1080 when there is none.
pub fn configured_size(new_w: u32, new_h: u32, cur_w: u32, cur_h: u32) -> (r: (u32, u32, bool))
    ensures
        new_w != 0 && new_h != 0 ==> r == (new_w, new_h, new_w != cur_w || new_h != cur_h),
        !(new_w != 0 && new_h != 0) && cur_w == 0 ==> r == (1920u32, 1080u32, false),
        !(new_w != 0 && new_h != 0) && cur_w != 0 ==> r == (cur_w, cur_h, false),
{
    if new_w != 0 && new_h != 0 {
        (new_w, new_h, new_w != cur_w || new_h != cur_h)
    } else if cur_w == 0 {
        (1920, 1080, false)
    } else {
        (cur_w, cur_h, false)
    }
}

/// A frame can be drawn once the surface is configured with a non-zero size.
pub fn can_draw(configured: bool, width: u32, height: u32) -> (b: bool)
    ensures
        b == (configured && width != 0 && height != 0),
{
    configured && width != 0 && height != 0
}

/// Which source byte of an RGBA pixel goes to byte `o` of an ARGB8888 (little-endian BGRA)
/// pixel.
pub open spec fn bgra_source(o: int) -> int {
    if o == 0 {
        2
    } else if o == 1 {
        1
    } else if o == 2 {
        0
    } else {
        3
    }
}

pub open spec fn min(a: int, b: int) -> int {
    if a < b {
        a
    } else {
        b
    }
}

/// Byte `i` of a frame: transparent, except within the pixels that both the drawing and the
/// canvas have, where the drawing's RGBA pixel is stored as BGRA.
pub open spec fn frame_byte(rgba: Seq<u8>, canvas_len: int, draw: bool, i: int) -> u8 {
    if draw && i / 4 < min(rgba.len() as int / 4, canvas_len / 4) {
        rgba[4 * (i / 4) + bgra_source(i % 4)]
    } else {
        0
    }
}

/// The bytes for a `canvas_len`-byte ARGB8888 buffer: cleared to transparent, then, when
/// `draw`, the RGBA drawing copied in pixel by pixel with red and blue swapped.
pub fn argb_frame(rgba: &[u8], canvas_len: usize, draw: bool) -> (r: Vec<u8>)
    ensures
        r@.len() == canvas_len,
        forall|i: int| 0 <= i < canvas_len ==> r@[i] == frame_byte(rgba@, canvas_len as int, draw, i),
{
    let pixels: usize = if rgba.len() / 4 < canvas_len / 4 {
        rgba.len() / 4
    } else {
        canvas_len / 4
    };
    let mut r: Vec<u8> = Vec::new();
    for i in 0..canvas_len
        invariant
            pixels == min(rgba@.len() as int / 4, canvas_len as int / 4),
            r@.len() == i,
            forall|j: int| 0 <= j < i ==> r@[j] == frame_byte(rgba@, canvas_len as int, draw, j),
    {
        let p = i / 4;
        let o = i % 4;
        let b: u8 = if draw && p < pixels {
            let src: usize = if o == 0 {
                2
            } else if o == 1 {
                1
            } else if o == 2 {
                0
            } else {
                3
            };
            rgba[4 * p + src]
        } else {
            0
        };
        r.push(b);
    }
    r
}

} // verus!
