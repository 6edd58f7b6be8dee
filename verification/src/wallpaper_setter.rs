//! The file the desktop is pointed at when the wallpaper changes.
use vstd::prelude::*;

verus! {

broadcast use vstd::string::group_string_axioms;

/// The two alternating copies of the wallpaper named after `stem`, as (the
/// one to write now, the older one to remove): the desktop only notices a
/// new picture under a new name, so the copies take turns.
pub fn display_copy_names(stem: &str, first_exists: bool) -> (r: (String, String))
    ensures
        ({
            let a = stem@ + "_display_a.jpg"@;
            let b = stem@ + "_display_b.jpg"@;
            (r.0@, r.1@) == if first_exists { (b, a) } else { (a, b) }
        }),
{
    let mut a = stem.to_string();
    a.append("_display_a.jpg");
    let mut b = stem.to_string();
    b.append("_display_b.jpg");
    if first_exists {
        (b, a)
    } else {
        (a, b)
    }
}

} // verus!
