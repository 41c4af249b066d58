//! The drives of a machine, read off the bit mask of its logical drives:
//! bit 0 stands for drive `A`, bit 1 for drive `B`, and so on up to `Z`.

use vstd::prelude::*;
use vstd::string::{StrSliceExecFns, StringExecFns};

verus! {

/// The letters that a drive can have, in the order of the bits.
pub open spec fn alphabet() -> Seq<char> {
    "ABCDEFGHIJKLMNOPQRSTUVWXYZ"@
}

/// Whether `bitmask` has the bit of the drive number `index`.
pub open spec fn has_drive(bitmask: u32, index: u32) -> bool {
    bitmask & (1u32 << index) != 0
}

/// The label of the drive number `index`: its letter.
pub open spec fn drive_label(index: int) -> Seq<char> {
    alphabet().subrange(index, index + 1)
}

/// The root path of the drive number `index`: its letter and a colon.
pub open spec fn drive_path(index: int) -> Seq<char> {
    drive_label(index) + ":"@
}

/// The drives among the first `count` letters that `bitmask` has, each as its
/// label and its root path, in the order of the letters.
pub open spec fn drives(bitmask: u32, count: int) -> Seq<(Seq<char>, Seq<char>)>
    decreases count,
{
    if count <= 0 {
        Seq::empty()
    } else if has_drive(bitmask, (count - 1) as u32) {
        drives(bitmask, count - 1).push((drive_label(count - 1), drive_path(count - 1)))
    } else {
        drives(bitmask, count - 1)
    }
}

/// The labels and paths of a sequence of drives as characters.
pub open spec fn drive_views(drives: Seq<(String, String)>) -> Seq<(Seq<char>, Seq<char>)> {
    drives.map_values(|d: (String, String)| (d.0@, d.1@))
}

/// The drives that `bitmask` has, each as its label and its root path.
fn list_drives(bitmask: u32) -> (found: Vec<(String, String)>)
    ensures
        drive_views(found@) == drives(bitmask, 26),
{
    let letters = "ABCDEFGHIJKLMNOPQRSTUVWXYZ";
    proof {
        reveal_strlit("ABCDEFGHIJKLMNOPQRSTUVWXYZ");
    }
    let mut found: Vec<(String, String)> = Vec::new();
    let mut index: u32 = 0;
    assert(drive_views(found@) =~= drives(bitmask, 0));
    while index < 26
        invariant
            index <= 26,
            letters@ == alphabet(),
            letters@.len() == 26,
            drive_views(found@) == drives(bitmask, index as int),
        decreases 26 - index,
    {
        if bitmask & (1u32 << index) != 0 {
            let label = letters.substring_char(index as usize, index as usize + 1);
            let path = String::from_str(label).concat(":");
            let ghost before = drive_views(found@);
            found.push((label.to_string(), path));
            assert(drive_views(found@) =~= before.push(
                (drive_label(index as int), drive_path(index as int)),
            ));
        }
        index += 1;
    }
    found
}

/// The drives of a machine whose bit mask of logical drives is `bitmask`:
/// for each bit that is set, from `A` to `Z`, the letter as the label and the
/// letter with a colon as the root path.
pub fn get_computer_drives(bitmask: u32) -> (found: Vec<(String, String)>)
    ensures
        drive_views(found@) == drives(bitmask, 26),
{
    list_drives(bitmask)
}


/// The root path of the first of `drives` that has the label `label`.
pub open spec fn path_of(drives: Seq<(Seq<char>, Seq<char>)>, label: Seq<char>) -> Option<
    Seq<char>,
>
    decreases drives.len(),
{
    if drives.len() == 0 {
        None
    } else if drives.first().0 == label {
        Some(drives.first().1)
    } else {
        path_of(drives.drop_first(), label)
    }
}

/// The root path of the drive with the label `label`, if there is one.
pub fn find_drive(drives: &Vec<(String, String)>, label: &String) -> (path: Option<String>)
    ensures
        crate::tree::optional_view(path) == path_of(drive_views(drives@), label@),
{
    let ghost views = drive_views(drives@);
    let mut i: usize = 0;
    assert(views.skip(0) =~= views);
    while i < drives.len()
        invariant
            i <= drives@.len(),
            views == drive_views(drives@),
            path_of(views, label@) == path_of(views.skip(i as int), label@),
        decreases drives@.len() - i,
    {
        assert(views.skip(i as int).first() == views[i as int]);
        assert(views.skip(i as int).drop_first() =~= views.skip(i + 1));
        if drives[i].0 == *label {
            return Some(drives[i].1.clone());
        }
        i += 1;
    }
    None
}

} // verus!
