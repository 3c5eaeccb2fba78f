//! Small helpers shared by the generators.
use vstd::prelude::*;
use vstd::string::*;

verus! {

/// Whether two strings hold the same characters.
pub fn str_eq(a: &str, b: &str) -> (res: bool)
    ensures
        res == (a@ == b@),
{
    let x: String = a.to_owned();
    let y: String = b.to_owned();
    x == y
}

/// The number of a generation plane's name: `xOz` is 1, `yOz` is 2, anything else 0 (`xOy`).
pub open spec fn spec_plane_index(plane: Seq<char>) -> i32 {
    if plane == "xOz"@ {
        1
    } else if plane == "yOz"@ {
        2
    } else {
        0
    }
}

/// The number of a generation plane's name.
pub fn plane_index(plane: &str) -> (res: i32)
    ensures
        res == spec_plane_index(plane@),
{
    if str_eq(plane, "xOz") {
        1
    } else if str_eq(plane, "yOz") {
        2
    } else {
        0
    }
}

/// Coordinates from the image plane into the world: plane 0 swaps the second and third
/// axes, plane 1 keeps them, any other plane swaps the first two.
pub open spec fn spec_switch_xyz<T>(plane: i32, xyz: [T; 3]) -> [T; 3] {
    if plane == 0 {
        [xyz[0], xyz[2], xyz[1]]
    } else if plane == 1 {
        xyz
    } else {
        [xyz[1], xyz[0], xyz[2]]
    }
}

/// Coordinates from the image plane into the world.
pub fn switch_xyz<T: Copy>(plane: i32, xyz: [T; 3]) -> (res: [T; 3])
    ensures
        res == spec_switch_xyz(plane, xyz),
{
    if plane == 0 {
        [xyz[0], xyz[2], xyz[1]]
    } else if plane == 1 {
        xyz
    } else {
        [xyz[1], xyz[0], xyz[2]]
    }
}

/// Switching twice with the same plane gives the coordinates back: each plane's switch
/// swaps two axes or none.
pub proof fn switch_xyz_involutive<T>(plane: i32, xyz: [T; 3])
    ensures
        spec_switch_xyz(plane, spec_switch_xyz(plane, xyz)) == xyz,
{
    let r = spec_switch_xyz(plane, spec_switch_xyz(plane, xyz));
    assert(r@ =~= xyz@);
}

} // verus!
