use crate::grid::{elems_view, grid_spec, make_grid, PathElem};
use crate::params::ExtendParams;
use crate::rect::{Rect, COORD_MAX};
use crate::units::EXT_MAX;
use vstd::prelude::*;

verus! {

/// Effective extension to the left on the page with the given index:
/// with mirroring, odd pages take the configured right amount instead.
pub open spec fn effective_left(p: ExtendParams, idx: int) -> int {
    if p.mirror && idx % 2 == 1 {
        p.extend_right as int
    } else {
        p.extend_left as int
    }
}

/// Effective extension to the right on the page with the given index.
pub open spec fn effective_right(p: ExtendParams, idx: int) -> int {
    if p.mirror && idx % 2 == 1 {
        p.extend_left as int
    } else {
        p.extend_right as int
    }
}

/// The four sides of the extended rectangle. Top and bottom extension is
/// never mirrored.
pub open spec fn extended_left(old: Rect, p: ExtendParams, idx: int) -> int {
    old.left - effective_left(p, idx)
}

pub open spec fn extended_right(old: Rect, p: ExtendParams, idx: int) -> int {
    old.right + effective_right(p, idx)
}

pub open spec fn extended_top(old: Rect, p: ExtendParams, idx: int) -> int {
    old.top + p.extend_top
}

pub open spec fn extended_bottom(old: Rect, p: ExtendParams, idx: int) -> int {
    old.bottom - p.extend_bottom
}

/// Whether `new` is exactly the extension of `old` for the page with the
/// given index.
pub open spec fn is_extended(old: Rect, new: Rect, p: ExtendParams, idx: int) -> bool {
    &&& new.left == extended_left(old, p, idx)
    &&& new.right == extended_right(old, p, idx)
    &&& new.top == extended_top(old, p, idx)
    &&& new.bottom == extended_bottom(old, p, idx)
}

/// Computes the new, larger boundary rectangle of one page from its current
/// rectangle and the resolved parameters. The caller writes the result back
/// to every boundary box of the page.
pub fn extend_page_rect(old: &Rect, params: &ExtendParams, page_index: usize) -> (r: Rect)
    requires
        old.wf(),
        old.bounded(COORD_MAX as int),
        params.wf(),
    ensures
        is_extended(*old, r, *params, page_index as int),
        r.wf(),
        r.bounded(COORD_MAX + EXT_MAX),
{
    let mirrored = params.mirror && page_index % 2 == 1;
    let ext_left = if mirrored {
        params.extend_right
    } else {
        params.extend_left
    };
    let ext_right = if mirrored {
        params.extend_left
    } else {
        params.extend_right
    };
    Rect {
        left: old.left - ext_left,
        right: old.right + ext_right,
        top: old.top + params.extend_top,
        bottom: old.bottom - params.extend_bottom,
    }
}

/// Processes one page: computes the extended rectangle and, when a grid is
/// configured, the overlay path confined to the new margins around the old
/// content area.
pub fn extend_page(old: &Rect, params: &ExtendParams, page_index: usize) -> (r: (
    Rect,
    Option<Vec<PathElem>>,
))
    requires
        old.wf(),
        old.bounded(COORD_MAX as int),
        params.wf(),
    ensures
        is_extended(*old, r.0, *params, page_index as int),
        r.0.wf(),
        r.0.bounded(COORD_MAX + EXT_MAX),
        match r.1 {
            Some(v) => params.grid is Some && elems_view(v@) == grid_spec(
                Some(*old),
                r.0,
                params.grid.unwrap(),
                params.spacing as int,
                params.line_width as int,
            ),
            None => params.grid is None,
        },
{
    let new_rect = extend_page_rect(old, params, page_index);
    let overlay = if params.grid.is_some() {
        Some(make_grid(Some(old), &new_rect, params))
    } else {
        None
    };
    (new_rect, overlay)
}

/// The new rectangle contains the old one: each side moves outward by that
/// side's effective extension, strictly when it is positive and not at all
/// when it is zero.
pub proof fn lemma_extension_contains(old: Rect, new: Rect, p: ExtendParams, idx: int)
    requires
        old.wf(),
        p.wf(),
        is_extended(old, new, p, idx),
    ensures
        new.wf(),
        new.left <= old.left && new.right >= old.right,
        new.bottom <= old.bottom && new.top >= old.top,
        new.left < old.left <==> effective_left(p, idx) > 0,
        new.right > old.right <==> effective_right(p, idx) > 0,
        new.top > old.top <==> p.extend_top > 0,
        new.bottom < old.bottom <==> p.extend_bottom > 0,
        new.left == old.left <==> effective_left(p, idx) == 0,
        new.right == old.right <==> effective_right(p, idx) == 0,
        new.top == old.top <==> p.extend_top == 0,
        new.bottom == old.bottom <==> p.extend_bottom == 0,
{
}

/// With mirroring on, page index 0 takes the configured left and right
/// amounts as given, page index 1 takes them swapped, and the assignment
/// alternates with every page.
pub proof fn lemma_mirror_alternates(p: ExtendParams, idx: int)
    requires
        p.mirror,
        idx >= 0,
    ensures
        effective_left(p, 0) == p.extend_left,
        effective_right(p, 0) == p.extend_right,
        effective_left(p, 1) == p.extend_right,
        effective_right(p, 1) == p.extend_left,
        effective_left(p, idx + 1) == effective_right(p, idx),
        effective_right(p, idx + 1) == effective_left(p, idx),
{
}

/// Without mirroring, every page takes the configured amounts as given.
pub proof fn lemma_no_mirror_constant(p: ExtendParams, idx: int)
    requires
        !p.mirror,
    ensures
        effective_left(p, idx) == p.extend_left,
        effective_right(p, idx) == p.extend_right,
{
}

/// Running the extender on its own output extends further: it is not
/// idempotent. The second application moves each side outward by the same
/// amount again, so any page with a positive extension keeps growing.
pub proof fn lemma_extend_twice(old: Rect, mid: Rect, new: Rect, p: ExtendParams, idx: int)
    requires
        old.wf(),
        p.wf(),
        is_extended(old, mid, p, idx),
        is_extended(mid, new, p, idx),
    ensures
        new.left == old.left - 2 * effective_left(p, idx),
        new.right == old.right + 2 * effective_right(p, idx),
        new.top == old.top + 2 * p.extend_top,
        new.bottom == old.bottom - 2 * p.extend_bottom,
        effective_left(p, idx) > 0 ==> new.left < mid.left,
        effective_right(p, idx) > 0 ==> new.right > mid.right,
        p.extend_top > 0 ==> new.top > mid.top,
        p.extend_bottom > 0 ==> new.bottom < mid.bottom,
{
}

} // verus!
