use vstd::prelude::*;

verus! {

/// The number of terminal columns a string occupies.
pub uninterp spec fn display_width_of(s: Seq<char>) -> nat;

/// Relies on unicode_width::UnicodeWidthStr::width: the columns a string
/// occupies, folded over its characters alone; no characters take no columns.
#[verifier::external_body]
fn display_width(s: &str) -> (r: usize)
    ensures
        r == display_width_of(s@),
        s@.len() == 0 ==> r == 0,
{
    unicode_width::UnicodeWidthStr::width(s)
}

/// Whether a tile title whose left part is `left_width` columns wide fits
/// beside a right part `right_width` columns wide in a tile `area_width` cells
/// wide: each part takes two padding columns, a column separates them, and the
/// two border cells are not available.
pub open spec fn label_fits_spec(left_width: int, right_width: int, area_width: u16) -> bool {
    let available: int = if area_width >= 2 {
        area_width - 2
    } else {
        0
    };
    let needed_right = right_width + 2 + 1;
    let max_left = if available >= needed_right {
        available - needed_right
    } else {
        0
    };
    left_width + 2 <= max_left
}

pub fn label_fits(left_width: usize, right_width: usize, area_width: u16) -> (r: bool)
    ensures
        r == label_fits_spec(left_width as int, right_width as int, area_width),
{
    let available: u128 = area_width.saturating_sub(2) as u128;
    let needed_right: u128 = right_width as u128 + 3;
    let max_left: u128 = if available >= needed_right {
        available - needed_right
    } else {
        0
    };
    left_width as u128 + 2 <= max_left
}

/// Whether the full title `full` fits beside `right` in a tile `area_width`
/// cells wide, measured in terminal columns.
pub fn full_label_fits(full: &str, right: &str, area_width: u16) -> (r: bool)
    ensures
        r == label_fits_spec(
            display_width_of(full@) as int,
            display_width_of(right@) as int,
            area_width,
        ),
{
    let lw = display_width(full);
    let rw = display_width(right);
    label_fits(lw, rw, area_width)
}

} // verus!
