use crate::params::{ExtendParams, LineType};
use crate::rect::{Rect, COORD_MAX};
use crate::units::EXT_MAX;
use vstd::arithmetic::div_mod::{lemma_fundamental_div_mod, lemma_fundamental_div_mod_converse};
use vstd::arithmetic::mul::lemma_mul_inequality;
use vstd::prelude::*;

verus! {

/// One drawing operation of the overlay path.
#[derive(Copy, Clone, Debug, PartialEq, Eq, Structural)]
pub enum PathElem {
    /// A straight stroked segment from (x1, y1) to (x2, y2).
    Line { x1: i64, y1: i64, x2: i64, y2: i64 },
    /// A filled circle centered at (x, y) whose diameter is the line width.
    Dot { x: i64, y: i64 },
}

/// The mathematical model of a drawing operation.
pub enum GridElem {
    Line { x1: int, y1: int, x2: int, y2: int },
    Dot { x: int, y: int },
}

impl View for PathElem {
    type V = GridElem;

    open spec fn view(&self) -> GridElem {
        match *self {
            PathElem::Line { x1, y1, x2, y2 } => GridElem::Line {
                x1: x1 as int,
                y1: y1 as int,
                x2: x2 as int,
                y2: y2 as int,
            },
            PathElem::Dot { x, y } => GridElem::Dot { x: x as int, y: y as int },
        }
    }
}

pub open spec fn elems_view(s: Seq<PathElem>) -> Seq<GridElem> {
    s.map_values(|e: PathElem| e@)
}

/// The rectangle an optional borrowed inner rectangle denotes.
pub open spec fn inner_of(o: Option<&Rect>) -> Option<Rect> {
    match o {
        Some(r) => Some(*r),
        None => None,
    }
}

/// The y coordinate of the horizontal rule (or dot row) with index `j`:
/// rules start one spacing below the outer top and step downward.
pub open spec fn hrule_y(outer: Rect, spacing: int, j: int) -> int {
    outer.top - (j + 1) * spacing
}

/// The x coordinate of the vertical rule (or dot column) with index `j`:
/// rules start one spacing right of the outer left and step rightward.
pub open spec fn vrule_x(outer: Rect, spacing: int, j: int) -> int {
    outer.left + (j + 1) * spacing
}

/// How many horizontal rules fit: the number of y positions
/// `top - spacing, top - 2*spacing, ...` strictly above the outer bottom.
pub open spec fn hrule_count(outer: Rect, spacing: int) -> nat {
    if outer.height() <= 0 {
        0
    } else {
        ((outer.height() - 1) / spacing) as nat
    }
}

/// How many vertical rules fit: the number of x positions
/// `left + spacing, left + 2*spacing, ...` strictly left of the outer right.
pub open spec fn vrule_count(outer: Rect, spacing: int) -> nat {
    if outer.width() <= 0 {
        0
    } else {
        ((outer.width() - 1) / spacing) as nat
    }
}

/// How many dot rows fit: y positions stepping down from the outer top that
/// stay at least one dot width above the outer bottom.
pub open spec fn dot_row_count(outer: Rect, spacing: int, width: int) -> nat {
    if outer.height() - width < 0 {
        0
    } else {
        ((outer.height() - width) / spacing) as nat
    }
}

/// How many dot columns fit.
pub open spec fn dot_col_count(outer: Rect, spacing: int, width: int) -> nat {
    if outer.width() - width < 0 {
        0
    } else {
        ((outer.width() - width) / spacing) as nat
    }
}

/// The segments of one horizontal rule at height `y`. Where `y` crosses the
/// inner rectangle's vertical span, only the margin stubs at its sides are
/// drawn; elsewhere the rule runs across the whole outer rectangle.
pub open spec fn hline_at(inner: Option<Rect>, outer: Rect, y: int) -> Seq<GridElem> {
    match inner {
        Some(r) => {
            if r.bottom <= y <= r.top {
                (if outer.left < r.left {
                    seq![GridElem::Line { x1: outer.left as int, y1: y, x2: r.left as int, y2: y }]
                } else {
                    Seq::empty()
                }) + (if outer.right > r.right {
                    seq![
                        GridElem::Line {
                            x1: r.right as int,
                            y1: y,
                            x2: outer.right as int,
                            y2: y,
                        },
                    ]
                } else {
                    Seq::empty()
                })
            } else {
                seq![
                    GridElem::Line { x1: outer.left as int, y1: y, x2: outer.right as int, y2: y },
                ]
            }
        },
        None => seq![
            GridElem::Line { x1: outer.left as int, y1: y, x2: outer.right as int, y2: y },
        ],
    }
}

/// The segments of one vertical rule at `x`, analogous to `hline_at`.
pub open spec fn vline_at(inner: Option<Rect>, outer: Rect, x: int) -> Seq<GridElem> {
    match inner {
        Some(r) => {
            if r.left <= x <= r.right {
                (if outer.top > r.top {
                    seq![GridElem::Line { x1: x, y1: outer.top as int, x2: x, y2: r.top as int }]
                } else {
                    Seq::empty()
                }) + (if outer.bottom < r.bottom {
                    seq![
                        GridElem::Line {
                            x1: x,
                            y1: outer.bottom as int,
                            x2: x,
                            y2: r.bottom as int,
                        },
                    ]
                } else {
                    Seq::empty()
                })
            } else {
                seq![
                    GridElem::Line { x1: x, y1: outer.top as int, x2: x, y2: outer.bottom as int },
                ]
            }
        },
        None => seq![
            GridElem::Line { x1: x, y1: outer.top as int, x2: x, y2: outer.bottom as int },
        ],
    }
}

/// The dot at lattice point (x, y), unless it falls into the exclusion zone
/// around the inner rectangle, which is padded by one dot width left of it
/// and by one spacing on the other three sides.
pub open spec fn dot_at(inner: Option<Rect>, spacing: int, width: int, x: int, y: int) -> Seq<
    GridElem,
> {
    match inner {
        Some(r) => {
            if r.left - width <= x <= r.right + spacing && r.bottom - spacing <= y <= r.top
                + spacing {
                Seq::empty()
            } else {
                seq![GridElem::Dot { x, y }]
            }
        },
        None => seq![GridElem::Dot { x, y }],
    }
}

/// The segments of the first `k` horizontal rules, top to bottom.
pub open spec fn hrules_upto(inner: Option<Rect>, outer: Rect, spacing: int, k: nat) -> Seq<
    GridElem,
>
    decreases k,
{
    if k == 0 {
        Seq::empty()
    } else {
        hrules_upto(inner, outer, spacing, (k - 1) as nat) + hline_at(
            inner,
            outer,
            hrule_y(outer, spacing, k - 1),
        )
    }
}

/// The segments of the first `k` vertical rules, left to right.
pub open spec fn vrules_upto(inner: Option<Rect>, outer: Rect, spacing: int, k: nat) -> Seq<
    GridElem,
>
    decreases k,
{
    if k == 0 {
        Seq::empty()
    } else {
        vrules_upto(inner, outer, spacing, (k - 1) as nat) + vline_at(
            inner,
            outer,
            vrule_x(outer, spacing, k - 1),
        )
    }
}

/// The dots of the first `k` columns of the row at height `y`.
pub open spec fn dot_row_upto(
    inner: Option<Rect>,
    outer: Rect,
    spacing: int,
    width: int,
    y: int,
    k: nat,
) -> Seq<GridElem>
    decreases k,
{
    if k == 0 {
        Seq::empty()
    } else {
        dot_row_upto(inner, outer, spacing, width, y, (k - 1) as nat) + dot_at(
            inner,
            spacing,
            width,
            vrule_x(outer, spacing, k - 1),
            y,
        )
    }
}

/// The whole dot row at height `y`.
pub open spec fn dot_row(inner: Option<Rect>, outer: Rect, spacing: int, width: int, y: int) -> Seq<
    GridElem,
> {
    dot_row_upto(inner, outer, spacing, width, y, dot_col_count(outer, spacing, width))
}

/// The dots of the first `k` rows, top to bottom.
pub open spec fn dots_upto(
    inner: Option<Rect>,
    outer: Rect,
    spacing: int,
    width: int,
    k: nat,
) -> Seq<GridElem>
    decreases k,
{
    if k == 0 {
        Seq::empty()
    } else {
        dots_upto(inner, outer, spacing, width, (k - 1) as nat) + dot_row(
            inner,
            outer,
            spacing,
            width,
            hrule_y(outer, spacing, k - 1),
        )
    }
}

/// The full overlay for one page: what the grid generator draws into the
/// margin between `inner` and `outer` (or across all of `outer` when there
/// is no inner rectangle).
pub open spec fn grid_spec(
    inner: Option<Rect>,
    outer: Rect,
    grid: LineType,
    spacing: int,
    width: int,
) -> Seq<GridElem> {
    match grid {
        LineType::Lines => hrules_upto(inner, outer, spacing, hrule_count(outer, spacing)),
        LineType::Squares => hrules_upto(inner, outer, spacing, hrule_count(outer, spacing))
            + vrules_upto(inner, outer, spacing, vrule_count(outer, spacing)),
        LineType::Dots => dots_upto(inner, outer, spacing, width, dot_row_count(outer, spacing, width)),
    }
}

/// Whether a drawing operation stays clear of the open interior of `r`:
/// a stroked segment counted as a zero-width geometric segment, a dot as
/// the square of one line width centered on it (coordinates are doubled so
/// that half a width stays an integer).
pub open spec fn avoids_interior(e: GridElem, r: Rect, width: int) -> bool {
    match e {
        GridElem::Line { x1, y1, x2, y2 } => {
            ||| (x1 <= r.left && x2 <= r.left)
            ||| (x1 >= r.right && x2 >= r.right)
            ||| (y1 <= r.bottom && y2 <= r.bottom)
            ||| (y1 >= r.top && y2 >= r.top)
        },
        GridElem::Dot { x, y } => {
            ||| 2 * x + width <= 2 * r.left
            ||| 2 * x - width >= 2 * r.right
            ||| 2 * y + width <= 2 * r.bottom
            ||| 2 * y - width >= 2 * r.top
        },
    }
}

proof fn lemma_hline_avoids(inner: Rect, outer: Rect, y: int, width: int)
    ensures
        forall|i: int| 0 <= i < hline_at(Some(inner), outer, y).len() ==> avoids_interior(
            #[trigger] hline_at(Some(inner), outer, y)[i],
            inner,
            width,
        ),
{
}

proof fn lemma_vline_avoids(inner: Rect, outer: Rect, x: int, width: int)
    ensures
        forall|i: int| 0 <= i < vline_at(Some(inner), outer, x).len() ==> avoids_interior(
            #[trigger] vline_at(Some(inner), outer, x)[i],
            inner,
            width,
        ),
{
}

proof fn lemma_dot_avoids(inner: Rect, spacing: int, width: int, x: int, y: int)
    requires
        0 <= width <= 2 * spacing,
    ensures
        forall|i: int| 0 <= i < dot_at(Some(inner), spacing, width, x, y).len() ==> avoids_interior(
            #[trigger] dot_at(Some(inner), spacing, width, x, y)[i],
            inner,
            width,
        ),
{
}

proof fn lemma_concat_avoids(a: Seq<GridElem>, b: Seq<GridElem>, r: Rect, width: int)
    requires
        forall|i: int| 0 <= i < a.len() ==> avoids_interior(#[trigger] a[i], r, width),
        forall|i: int| 0 <= i < b.len() ==> avoids_interior(#[trigger] b[i], r, width),
    ensures
        forall|i: int| 0 <= i < (a + b).len() ==> avoids_interior(#[trigger] (a + b)[i], r, width),
{
    assert forall|i: int| 0 <= i < (a + b).len() implies avoids_interior(
        #[trigger] (a + b)[i],
        r,
        width,
    ) by {
        if i < a.len() {
            assert((a + b)[i] == a[i]);
        } else {
            assert((a + b)[i] == b[i - a.len()]);
        }
    }
}

proof fn lemma_hrules_avoid(inner: Rect, outer: Rect, spacing: int, width: int, k: nat)
    ensures
        forall|i: int| 0 <= i < hrules_upto(Some(inner), outer, spacing, k).len()
            ==> avoids_interior(
            #[trigger] hrules_upto(Some(inner), outer, spacing, k)[i],
            inner,
            width,
        ),
    decreases k,
{
    if k > 0 {
        lemma_hrules_avoid(inner, outer, spacing, width, (k - 1) as nat);
        lemma_hline_avoids(inner, outer, hrule_y(outer, spacing, k - 1), width);
        lemma_concat_avoids(
            hrules_upto(Some(inner), outer, spacing, (k - 1) as nat),
            hline_at(Some(inner), outer, hrule_y(outer, spacing, k - 1)),
            inner,
            width,
        );
    }
}

proof fn lemma_vrules_avoid(inner: Rect, outer: Rect, spacing: int, width: int, k: nat)
    ensures
        forall|i: int| 0 <= i < vrules_upto(Some(inner), outer, spacing, k).len()
            ==> avoids_interior(
            #[trigger] vrules_upto(Some(inner), outer, spacing, k)[i],
            inner,
            width,
        ),
    decreases k,
{
    if k > 0 {
        lemma_vrules_avoid(inner, outer, spacing, width, (k - 1) as nat);
        lemma_vline_avoids(inner, outer, vrule_x(outer, spacing, k - 1), width);
        lemma_concat_avoids(
            vrules_upto(Some(inner), outer, spacing, (k - 1) as nat),
            vline_at(Some(inner), outer, vrule_x(outer, spacing, k - 1)),
            inner,
            width,
        );
    }
}

proof fn lemma_dot_row_avoids(inner: Rect, outer: Rect, spacing: int, width: int, y: int, k: nat)
    requires
        0 <= width <= 2 * spacing,
    ensures
        forall|i: int| 0 <= i < dot_row_upto(Some(inner), outer, spacing, width, y, k).len()
            ==> avoids_interior(
            #[trigger] dot_row_upto(Some(inner), outer, spacing, width, y, k)[i],
            inner,
            width,
        ),
    decreases k,
{
    if k > 0 {
        lemma_dot_row_avoids(inner, outer, spacing, width, y, (k - 1) as nat);
        lemma_dot_avoids(inner, spacing, width, vrule_x(outer, spacing, k - 1), y);
        lemma_concat_avoids(
            dot_row_upto(Some(inner), outer, spacing, width, y, (k - 1) as nat),
            dot_at(Some(inner), spacing, width, vrule_x(outer, spacing, k - 1), y),
            inner,
            width,
        );
    }
}

proof fn lemma_dots_avoid(inner: Rect, outer: Rect, spacing: int, width: int, k: nat)
    requires
        0 <= width <= 2 * spacing,
    ensures
        forall|i: int| 0 <= i < dots_upto(Some(inner), outer, spacing, width, k).len()
            ==> avoids_interior(
            #[trigger] dots_upto(Some(inner), outer, spacing, width, k)[i],
            inner,
            width,
        ),
    decreases k,
{
    if k > 0 {
        lemma_dots_avoid(inner, outer, spacing, width, (k - 1) as nat);
        lemma_dot_row_avoids(
            inner,
            outer,
            spacing,
            width,
            hrule_y(outer, spacing, k - 1),
            dot_col_count(outer, spacing, width),
        );
        lemma_concat_avoids(
            dots_upto(Some(inner), outer, spacing, width, (k - 1) as nat),
            dot_row(Some(inner), outer, spacing, width, hrule_y(outer, spacing, k - 1)),
            inner,
            width,
        );
    }
}

/// Margin-only property: when an inner rectangle is supplied, every element
/// the grid generator draws stays clear of that rectangle's interior. A
/// rule is counted as a zero-width segment; a dot is counted with its whole
/// disc, which stays clear as long as the dot diameter is at most twice the
/// spacing (the exclusion zone is padded by one width left of the content
/// and by one spacing on the other sides).
pub proof fn lemma_grid_avoids_inner(
    inner: Rect,
    outer: Rect,
    grid: LineType,
    spacing: int,
    width: int,
)
    requires
        spacing >= 1,
        width >= 0,
        grid == LineType::Dots ==> width <= 2 * spacing,
    ensures
        forall|i: int| 0 <= i < grid_spec(Some(inner), outer, grid, spacing, width).len()
            ==> avoids_interior(
            #[trigger] grid_spec(Some(inner), outer, grid, spacing, width)[i],
            inner,
            width,
        ),
{
    match grid {
        LineType::Lines => {
            lemma_hrules_avoid(inner, outer, spacing, width, hrule_count(outer, spacing));
        },
        LineType::Squares => {
            lemma_hrules_avoid(inner, outer, spacing, width, hrule_count(outer, spacing));
            lemma_vrules_avoid(inner, outer, spacing, width, vrule_count(outer, spacing));
        },
        LineType::Dots => {
            lemma_dots_avoid(inner, outer, spacing, width, dot_row_count(outer, spacing, width));
        },
    }
}

proof fn lemma_hrules_full_structure(outer: Rect, spacing: int, k: nat)
    ensures
        hrules_upto(None, outer, spacing, k).len() == k,
        forall|i: int| 0 <= i < k ==> hrules_upto(None, outer, spacing, k)[i] == (GridElem::Line {
            x1: outer.left as int,
            y1: hrule_y(outer, spacing, i),
            x2: outer.right as int,
            y2: hrule_y(outer, spacing, i),
        }),
    decreases k,
{
    if k > 0 {
        lemma_hrules_full_structure(outer, spacing, (k - 1) as nat);
    }
}

/// Grid line count: for an outer rectangle of height H and spacing S, the
/// ruled overlay without an inner rectangle holds exactly floor((H-1)/S)
/// horizontal rules - the count of positions top - S, top - 2S, ...
/// strictly above the bottom - and rule i runs the full width at height
/// top - (i+1)S, inside the rectangle.
pub proof fn lemma_horizontal_rule_count(outer: Rect, spacing: int, width: int)
    requires
        outer.wf(),
        spacing >= 1,
    ensures
        grid_spec(None, outer, LineType::Lines, spacing, width).len() == (outer.height() - 1)
            / spacing,
        forall|i: int| 0 <= i < (outer.height() - 1) / spacing ==> grid_spec(
            None,
            outer,
            LineType::Lines,
            spacing,
            width,
        )[i] == (GridElem::Line {
            x1: outer.left as int,
            y1: outer.top - (i + 1) * spacing,
            x2: outer.right as int,
            y2: outer.top - (i + 1) * spacing,
        }),
        forall|i: int| 0 <= i < (outer.height() - 1) / spacing ==> outer.bottom < outer.top
            - #[trigger] ((i + 1) * spacing) < outer.top,
{
    let h = outer.height();
    let c = (h - 1) / spacing;
    lemma_hrules_full_structure(outer, spacing, hrule_count(outer, spacing));
    lemma_fundamental_div_mod(h - 1, spacing);
    assert forall|i: int| 0 <= i < c implies outer.bottom < outer.top - #[trigger] ((i + 1)
        * spacing) < outer.top by {
        lemma_mul_inequality(i + 1, c, spacing);
        assert(c * spacing <= h - 1);
        assert((i + 1) * spacing >= 1) by (nonlinear_arith)
            requires
                i + 1 >= 1,
                spacing >= 1,
        ;
    }
}

/// Pushes the segments of the horizontal rule at `y`.
fn push_hline(elems: &mut Vec<PathElem>, rect_inner: Option<&Rect>, rect_outer: &Rect, y: i64)
    ensures
        elems_view(final(elems)@) == elems_view(old(elems)@) + hline_at(
            inner_of(rect_inner),
            *rect_outer,
            y as int,
        ),
{
    let ghost pre = elems_view(elems@);
    match rect_inner {
        Some(ri) => {
            if ri.bottom <= y && y <= ri.top {
                if rect_outer.left < ri.left {
                    elems.push(PathElem::Line { x1: rect_outer.left, y1: y, x2: ri.left, y2: y });
                }
                if rect_outer.right > ri.right {
                    elems.push(PathElem::Line { x1: ri.right, y1: y, x2: rect_outer.right, y2: y });
                }
            } else {
                elems.push(
                    PathElem::Line { x1: rect_outer.left, y1: y, x2: rect_outer.right, y2: y },
                );
            }
        },
        None => {
            elems.push(PathElem::Line { x1: rect_outer.left, y1: y, x2: rect_outer.right, y2: y });
        },
    }
    proof {
        assert(elems_view(elems@) =~= pre + hline_at(inner_of(rect_inner), *rect_outer, y as int));
    }
}

/// Pushes the segments of the vertical rule at `x`.
fn push_vline(elems: &mut Vec<PathElem>, rect_inner: Option<&Rect>, rect_outer: &Rect, x: i64)
    ensures
        elems_view(final(elems)@) == elems_view(old(elems)@) + vline_at(
            inner_of(rect_inner),
            *rect_outer,
            x as int,
        ),
{
    let ghost pre = elems_view(elems@);
    match rect_inner {
        Some(ri) => {
            if ri.left <= x && x <= ri.right {
                if rect_outer.top > ri.top {
                    elems.push(PathElem::Line { x1: x, y1: rect_outer.top, x2: x, y2: ri.top });
                }
                if rect_outer.bottom < ri.bottom {
                    elems.push(PathElem::Line { x1: x, y1: rect_outer.bottom, x2: x, y2: ri.bottom });
                }
            } else {
                elems.push(
                    PathElem::Line { x1: x, y1: rect_outer.top, x2: x, y2: rect_outer.bottom },
                );
            }
        },
        None => {
            elems.push(PathElem::Line { x1: x, y1: rect_outer.top, x2: x, y2: rect_outer.bottom });
        },
    }
    proof {
        assert(elems_view(elems@) =~= pre + vline_at(inner_of(rect_inner), *rect_outer, x as int));
    }
}

/// Pushes the dot row at height `y`: lattice points stepping right from the
/// outer left, skipping the exclusion zone around the inner rectangle.
fn push_dot_row(
    elems: &mut Vec<PathElem>,
    rect_inner: Option<&Rect>,
    rect_outer: &Rect,
    spacing: i64,
    width: i64,
    y: i64,
)
    requires
        rect_outer.wf(),
        rect_outer.bounded(COORD_MAX + EXT_MAX),
        rect_inner matches Some(ri) ==> ri.bounded(COORD_MAX + EXT_MAX),
        1 <= spacing <= EXT_MAX,
        1 <= width <= EXT_MAX,
        -(COORD_MAX + 2 * EXT_MAX) <= y <= COORD_MAX + EXT_MAX,
    ensures
        elems_view(final(elems)@) == elems_view(old(elems)@) + dot_row(
            inner_of(rect_inner),
            *rect_outer,
            spacing as int,
            width as int,
            y as int,
        ),
{
    let ghost pre = elems_view(elems@);
    let ghost inner_g = inner_of(rect_inner);
    let ghost outer_g = *rect_outer;
    let mut x = rect_outer.left + spacing;
    let ghost mut k: nat = 0;
    proof {
        assert((0 + 1) * (spacing as int) == spacing as int) by (nonlinear_arith);
    }
    while x <= rect_outer.right - width
        invariant
            rect_outer.wf(),
            rect_outer.bounded(COORD_MAX + EXT_MAX),
            rect_inner matches Some(ri) ==> ri.bounded(COORD_MAX + EXT_MAX),
            1 <= spacing <= EXT_MAX,
            1 <= width <= EXT_MAX,
            -(COORD_MAX + 2 * EXT_MAX) <= y <= COORD_MAX + EXT_MAX,
            outer_g == *rect_outer,
            inner_g == inner_of(rect_inner),
            x == outer_g.left + (k + 1) * spacing,
            k == 0 || k * spacing <= outer_g.width() - width,
            elems_view(elems@) == pre + dot_row_upto(
                inner_g,
                outer_g,
                spacing as int,
                width as int,
                y as int,
                k,
            ),
        decreases rect_outer.right + spacing - x,
    {
        let ghost pre_row = elems_view(elems@);
        let emit = match rect_inner {
            Some(ri) => !(x >= ri.left - width && x <= ri.right + spacing && y <= ri.top + spacing
                && y >= ri.bottom - spacing),
            None => true,
        };
        if emit {
            elems.push(PathElem::Dot { x, y });
        }
        proof {
            assert(elems_view(elems@) =~= pre_row + dot_at(
                inner_g,
                spacing as int,
                width as int,
                x as int,
                y as int,
            ));
            assert(dot_row_upto(inner_g, outer_g, spacing as int, width as int, y as int, k + 1)
                == dot_row_upto(inner_g, outer_g, spacing as int, width as int, y as int, k)
                + dot_at(inner_g, spacing as int, width as int, vrule_x(outer_g, spacing as int, k as int), y as int));
            assert(pre_row + dot_at(inner_g, spacing as int, width as int, x as int, y as int)
                =~= pre + dot_row_upto(inner_g, outer_g, spacing as int, width as int, y as int, k + 1));
            assert((k + 1) * (spacing as int) + spacing == (k + 2) * (spacing as int))
                by (nonlinear_arith);
            assert((k + 1) * (spacing as int) == k * (spacing as int) + spacing)
                by (nonlinear_arith);
            k = k + 1;
        }
        x = x + spacing;
    }
    proof {
        let s = spacing as int;
        let w = width as int;
        let cap = outer_g.width() - w;
        assert((k + 1) * s == k * s + s) by (nonlinear_arith);
        if k == 0 {
            if cap >= 0 {
                assert(cap < s);
                lemma_fundamental_div_mod_converse(cap, s, 0, cap);
            }
            assert(dot_col_count(outer_g, s, w) == 0);
        } else {
            assert(k * s <= cap);
            assert(cap < (k + 1) * s);
            lemma_fundamental_div_mod_converse(cap, s, k as int, cap - k * s);
            assert(dot_col_count(outer_g, s, w) == k);
        }
    }
}

/// Builds the overlay path for one page: the grid confined to the margin
/// between the optional inner rectangle (the original content area) and the
/// outer rectangle (the new extended area).
pub fn make_grid(rect_inner: Option<&Rect>, rect_outer: &Rect, params: &ExtendParams) -> (r: Vec<
    PathElem,
>)
    requires
        params.wf(),
        params.grid is Some,
        rect_outer.wf(),
        rect_outer.bounded(COORD_MAX + EXT_MAX),
        rect_inner matches Some(ri) ==> ri.bounded(COORD_MAX + EXT_MAX),
    ensures
        elems_view(r@) == grid_spec(
            inner_of(rect_inner),
            *rect_outer,
            params.grid.unwrap(),
            params.spacing as int,
            params.line_width as int,
        ),
{
    let spacing = params.spacing;
    let width = params.line_width;
    let ghost inner_g = inner_of(rect_inner);
    let ghost outer_g = *rect_outer;
    let ghost s = spacing as int;
    let ghost w = width as int;
    let mut elems: Vec<PathElem> = Vec::new();
    let is_dots = match params.grid {
        Some(LineType::Dots) => true,
        _ => false,
    };
    if is_dots {
        let mut y = rect_outer.top - spacing;
        let ghost mut k: nat = 0;
        proof {
            assert((0 + 1) * s == s) by (nonlinear_arith);
        }
        while y >= rect_outer.bottom + width
            invariant
                rect_outer.wf(),
                rect_outer.bounded(COORD_MAX + EXT_MAX),
                rect_inner matches Some(ri) ==> ri.bounded(COORD_MAX + EXT_MAX),
                1 <= spacing <= EXT_MAX,
                1 <= width <= EXT_MAX,
                s == spacing as int,
                w == width as int,
                outer_g == *rect_outer,
                inner_g == inner_of(rect_inner),
                y == outer_g.top - (k + 1) * s,
                k == 0 || k * s <= outer_g.height() - w,
                elems_view(elems@) == dots_upto(inner_g, outer_g, s, w, k),
            decreases y + spacing - rect_outer.bottom,
        {
            push_dot_row(&mut elems, rect_inner, rect_outer, spacing, width, y);
            proof {
                assert(dots_upto(inner_g, outer_g, s, w, k + 1) == dots_upto(
                    inner_g,
                    outer_g,
                    s,
                    w,
                    k,
                ) + dot_row(inner_g, outer_g, s, w, hrule_y(outer_g, s, k as int)));
                assert((k + 1) * s + s == (k + 2) * s) by (nonlinear_arith);
                assert((k + 1) * s == k * s + s) by (nonlinear_arith);
                k = k + 1;
            }
            y = y - spacing;
        }
        proof {
            let cap = outer_g.height() - w;
            assert((k + 1) * s == k * s + s) by (nonlinear_arith);
            if k == 0 {
                if cap >= 0 {
                    assert(cap < s);
                    lemma_fundamental_div_mod_converse(cap, s, 0, cap);
                }
                assert(dot_row_count(outer_g, s, w) == 0);
            } else {
                lemma_fundamental_div_mod_converse(cap, s, k as int, cap - k * s);
                assert(dot_row_count(outer_g, s, w) == k);
            }
        }
    } else {
        let mut y = rect_outer.top - spacing;
        let ghost mut k: nat = 0;
        proof {
            assert((0 + 1) * s == s) by (nonlinear_arith);
            assert(0 * s == 0) by (nonlinear_arith);
        }
        while y > rect_outer.bottom
            invariant
                rect_outer.wf(),
                rect_outer.bounded(COORD_MAX + EXT_MAX),
                rect_inner matches Some(ri) ==> ri.bounded(COORD_MAX + EXT_MAX),
                1 <= spacing <= EXT_MAX,
                s == spacing as int,
                outer_g == *rect_outer,
                inner_g == inner_of(rect_inner),
                y == outer_g.top - (k + 1) * s,
                k * s < outer_g.height(),
                elems_view(elems@) == hrules_upto(inner_g, outer_g, s, k),
            decreases y + spacing - rect_outer.bottom,
        {
            push_hline(&mut elems, rect_inner, rect_outer, y);
            proof {
                assert(hrules_upto(inner_g, outer_g, s, k + 1) == hrules_upto(
                    inner_g,
                    outer_g,
                    s,
                    k,
                ) + hline_at(inner_g, outer_g, hrule_y(outer_g, s, k as int)));
                assert((k + 1) * s + s == (k + 2) * s) by (nonlinear_arith);
                assert((k + 1) * s == k * s + s) by (nonlinear_arith);
                k = k + 1;
            }
            y = y - spacing;
        }
        proof {
            let h = outer_g.height();
            assert((k + 1) * s == k * s + s) by (nonlinear_arith);
            lemma_fundamental_div_mod_converse(h - 1, s, k as int, h - 1 - k * s);
            assert(hrule_count(outer_g, s) == k);
        }
        let is_squares = match params.grid {
            Some(LineType::Squares) => true,
            _ => false,
        };
        if is_squares {
            let mut x = rect_outer.left + spacing;
            let ghost mut k2: nat = 0;
            proof {
                assert((0 + 1) * s == s) by (nonlinear_arith);
                assert(0 * s == 0) by (nonlinear_arith);
            }
            while x < rect_outer.right
                invariant
                    rect_outer.wf(),
                    rect_outer.bounded(COORD_MAX + EXT_MAX),
                    rect_inner matches Some(ri) ==> ri.bounded(COORD_MAX + EXT_MAX),
                    1 <= spacing <= EXT_MAX,
                    s == spacing as int,
                    outer_g == *rect_outer,
                    inner_g == inner_of(rect_inner),
                    x == outer_g.left + (k2 + 1) * s,
                    k2 * s < outer_g.width(),
                    elems_view(elems@) == hrules_upto(inner_g, outer_g, s, hrule_count(outer_g, s))
                        + vrules_upto(inner_g, outer_g, s, k2),
                decreases rect_outer.right + spacing - x,
            {
                push_vline(&mut elems, rect_inner, rect_outer, x);
                proof {
                    assert(vrules_upto(inner_g, outer_g, s, k2 + 1) == vrules_upto(
                        inner_g,
                        outer_g,
                        s,
                        k2,
                    ) + vline_at(inner_g, outer_g, vrule_x(outer_g, s, k2 as int)));
                    assert((k2 + 1) * s + s == (k2 + 2) * s) by (nonlinear_arith);
                    assert((k2 + 1) * s == k2 * s + s) by (nonlinear_arith);
                    k2 = k2 + 1;
                }
                x = x + spacing;
            }
            proof {
                let wd = outer_g.width();
                assert((k2 + 1) * s == k2 * s + s) by (nonlinear_arith);
                lemma_fundamental_div_mod_converse(wd - 1, s, k2 as int, wd - 1 - k2 * s);
                assert(vrule_count(outer_g, s) == k2);
            }
        }
    }
    elems
}

} // verus!
