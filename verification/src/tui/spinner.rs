//! The animation shown beside a running operation.

use vstd::prelude::*;

verus! {

/// Number of frames in one turn of the spinner.
pub const FRAMES: usize = 10;

/// The spinner's frame at animation tick `tick`.
pub open spec fn frame_at(tick: nat) -> char {
    let k = tick % (FRAMES as nat);
    if k == 0 {
        '\u{280b}'
    } else if k == 1 {
        '\u{2819}'
    } else if k == 2 {
        '\u{2839}'
    } else if k == 3 {
        '\u{2838}'
    } else if k == 4 {
        '\u{283c}'
    } else if k == 5 {
        '\u{2834}'
    } else if k == 6 {
        '\u{2826}'
    } else if k == 7 {
        '\u{2827}'
    } else if k == 8 {
        '\u{2807}'
    } else {
        '\u{280f}'
    }
}

/// The spinner's frame at animation tick `tick`. The frames repeat after
/// ten ticks.
pub fn frame(tick: usize) -> (c: char)
    ensures
        c == frame_at(tick as nat),
{
    let k = tick % FRAMES;
    if k == 0 {
        '\u{280b}'
    } else if k == 1 {
        '\u{2819}'
    } else if k == 2 {
        '\u{2839}'
    } else if k == 3 {
        '\u{2838}'
    } else if k == 4 {
        '\u{283c}'
    } else if k == 5 {
        '\u{2834}'
    } else if k == 6 {
        '\u{2826}'
    } else if k == 7 {
        '\u{2827}'
    } else if k == 8 {
        '\u{2807}'
    } else {
        '\u{280f}'
    }
}

} // verus!
