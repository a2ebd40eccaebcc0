//! The Graphics Output Protocol: choosing a video mode.
use vstd::prelude::*;

verus! {

/// The mode of `modes` (their resolutions, in the firmware's order) to set
/// for a screen of `horizontal` by `vertical` pixels: the first that has
/// exactly that resolution. The requested width is compared as a
/// machine-sized number where there are modes, and the height where some
/// mode has that width, so each must then fit in one.
pub fn find_video_mode(modes: &Vec<(usize, usize)>, horizontal: u64, vertical: u64) -> (res: Option<usize>)
    requires
        modes@.len() > 0 ==> horizontal <= usize::MAX,
        (exists|j: int| 0 <= j < modes@.len() && modes@[j].0 == horizontal) ==> vertical <= usize::MAX,
    ensures
        res matches Some(i) ==> i < modes@.len() && modes@[i as int].0 == horizontal
            && modes@[i as int].1 == vertical,
        res matches Some(i) ==> forall|j: int|
            0 <= j < i ==> !(modes@[j].0 == horizontal && modes@[j].1 == vertical),
        res is None ==> forall|j: int|
            0 <= j < modes@.len() ==> !(modes@[j].0 == horizontal && modes@[j].1 == vertical),
{
    let mut i: usize = 0;
    while i < modes.len()
        invariant
            i <= modes@.len(),
            forall|j: int| 0 <= j < i ==> !(modes@[j].0 == horizontal && modes@[j].1 == vertical),
        decreases modes@.len() - i,
    {
        let (x, y) = modes[i];
        if x as u64 == horizontal && y as u64 == vertical {
            return Some(i);
        }
        i = i + 1;
    }
    None
}

} // verus!
