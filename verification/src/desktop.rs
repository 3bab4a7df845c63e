use vstd::prelude::*;
use crate::pointer::{abs, cursor_step, Cursor};
use crate::text::{clock, clock_text, movement_text, resolution_text, signed_triple, unsigned_triple};

verus! {

/// What one desktop frame shows besides its fixed layout.
pub struct DesktopFrame {
    /// Column at which the cursor is drawn.
    pub cursor_x: usize,
    /// Row at which the cursor is drawn.
    pub cursor_y: usize,
    /// The clock, `hh:mm:ss`.
    pub clock: String,
    /// The pointer resolution, three numbers separated by commas.
    pub resolution: String,
    /// The pointer movement of this frame, three signed numbers separated by
    /// commas; `None` when the pointer reported no state.
    pub movement: Option<String>,
}

/// The pointer state of a frame can be applied to `cursor`: when there is a
/// movement, the resolution of both axes is nonzero and the moved cursor stays
/// within `i128`.
pub open spec fn pointer_applicable(cursor: Cursor, resolution: [u64; 3], movement: Option<[i32; 3]>) -> bool {
    match movement {
        None => true,
        Some(m) => {
            &&& resolution[0] != 0
            &&& resolution[1] != 0
            &&& i128::MIN <= cursor.x + cursor_step(m[0], resolution[0]) <= i128::MAX
            &&& i128::MIN <= cursor.y + cursor_step(m[1], resolution[1]) <= i128::MAX
        },
    }
}

/// One desktop frame: the cursor is drawn where it stood before this frame's
/// pointer movement, the texts come from the firmware time and the pointer
/// report, and the cursor then follows the movement, if any.
pub fn desktop_step(
    cursor: &mut Cursor,
    hour: u8,
    minute: u8,
    second: u8,
    resolution: [u64; 3],
    movement: Option<[i32; 3]>,
) -> (frame: DesktopFrame)
    requires
        old(cursor).x != i128::MIN,
        old(cursor).y != i128::MIN,
        pointer_applicable(*old(cursor), resolution, movement),
    ensures
        frame.cursor_x == abs(old(cursor).x as int) as usize,
        frame.cursor_y == abs(old(cursor).y as int) as usize,
        frame.clock@ == clock(hour, minute, second),
        frame.resolution@ == unsigned_triple(resolution),
        match movement {
            None => frame.movement is None && *final(cursor) == *old(cursor),
            Some(m) => {
                &&& frame.movement matches Some(text) && text@ == signed_triple(m)
                &&& final(cursor).x == old(cursor).x + cursor_step(m[0], resolution[0])
                &&& final(cursor).y == old(cursor).y + cursor_step(m[1], resolution[1])
            },
        },
{
    let (cursor_x, cursor_y) = cursor.position();
    let clock = clock_text(hour, minute, second);
    let resolution_shown = resolution_text(resolution);
    let movement_shown = match movement {
        None => None,
        Some(m) => {
            let text = movement_text(m);
            cursor.follow(m, resolution);
            Some(text)
        },
    };
    DesktopFrame { cursor_x, cursor_y, clock, resolution: resolution_shown, movement: movement_shown }
}

} // verus!
