use vstd::prelude::*;

verus! {

/// The pointer position as a pair, from the horizontal and vertical coordinates the page
/// reports.
pub fn get_pointer_position(pointer_x: i32, pointer_y: i32) -> (position: (i32, i32))
    ensures
        position == (pointer_x, pointer_y),
{
    (pointer_x, pointer_y)
}

} // verus!
