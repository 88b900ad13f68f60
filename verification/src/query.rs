//! Answers to temperature questions about one radiometric capture.
use vstd::prelude::*;

use crate::radiometric::{
    clipped, display_to_matrix, exceeds, is_nan, law_above_floor_of_any_pixels,
    law_hottest_above_floor, law_hottest_is_first_maximum, law_hottest_of_any_pixels,
    law_rectangle_is_cut_off, law_wf_covers, matrix_end, matrix_to_display, to_display, to_matrix,
    total_rank, CaptureView, Hottest, RadiometricCapture, LOWEST_FINITE,
};

verus! {

/// A temperature, as its bit pattern, and where it is on the display.
pub type Spot = (u32, usize, usize);

/// Answers about one capture; temperatures are bit patterns.
pub struct QueryAnswers {
    /// Hottest pixel of the whole matrix.
    pub frame_max: Option<Spot>,
    /// Temperature of each point; none where the point is out of range.
    pub points: Vec<Option<u32>>,
    /// Hottest pixel of each rectangle; none where the rectangle is empty or
    /// out of range.
    pub rois: Vec<Option<Spot>>,
}

/// A found pixel with its position on the display.
pub open spec fn on_display(best: Hottest) -> Option<Spot> {
    match best {
        Some((t, x, y)) => Some((t, to_display(x as int) as usize, to_display(y as int) as usize)),
        None => None,
    }
}

/// The temperature at a display position.
pub open spec fn point_answer(c: CaptureView, p: (u32, u32)) -> Option<u32> {
    let (x, y) = (to_matrix(p.0 as int), to_matrix(p.1 as int));
    if x < c.width && y < c.height {
        Some(c.cell(x, y))
    } else {
        None
    }
}

/// The hottest pixel of a rectangle on the display, given by position and size,
/// among all pixels of which the rectangle covers at least a part.
pub open spec fn roi_answer(c: CaptureView, r: (u32, u32, u32, u32)) -> Option<Spot> {
    on_display(
        c.hottest(
            None,
            to_matrix(r.0 as int),
            to_matrix(r.1 as int),
            matrix_end(r.0 as int, r.2 as int),
            matrix_end(r.1 as int, r.3 as int),
        ),
    )
}

/// `best` is the last of the hottest pixels in the total order; there is none
/// only where the capture has no pixel.
pub open spec fn is_frame_max(c: CaptureView, best: Option<Spot>) -> bool {
    match best {
        None => c.temps.len() == 0,
        Some((t, dx, dy)) => exists|x: int, y: int|
            {
                &&& 0 <= x < c.width
                &&& 0 <= #[trigger] c.position(x, y) < c.temps.len()
                &&& dx == to_display(x) && dy == to_display(y)
                &&& t == c.cell(x, y)
                &&& forall|j: int|
                    0 <= j < c.temps.len() ==> total_rank(#[trigger] c.temps[j]) <= total_rank(t)
                &&& forall|j: int|
                    c.position(x, y) < j < c.temps.len() ==> total_rank(#[trigger] c.temps[j])
                        < total_rank(t)
            },
    }
}

proof fn lemma_row_within(
    c: CaptureView,
    best: Hottest,
    y: int,
    x0: int,
    x: int,
    width: int,
    height: int,
)
    requires
        0 <= x0,
        0 <= y < height <= usize::MAX,
        x <= width <= usize::MAX,
        best matches Some((t, bx, by)) ==> bx < width && by < height,
    ensures
        c.scan_row(best, y, x0, x) matches Some((t, bx, by)) ==> bx < width && by < height,
    decreases x - x0,
{
    if x > x0 {
        lemma_row_within(c, best, y, x0, x - 1, width, height);
    }
}

/// Looking through columns and rows below bounds finds a pixel below them.
proof fn lemma_scan_within(
    c: CaptureView,
    best: Hottest,
    x0: int,
    x: int,
    y0: int,
    y: int,
    width: int,
    height: int,
)
    requires
        0 <= x0,
        0 <= y0,
        x <= width <= usize::MAX,
        y <= height <= usize::MAX,
        best matches Some((t, bx, by)) ==> bx < width && by < height,
    ensures
        c.scan(best, x0, x, y0, y) matches Some((t, bx, by)) ==> bx < width && by < height,
    decreases y - y0,
{
    if y > y0 {
        lemma_scan_within(c, best, x0, x, y0, y - 1, width, height);
        lemma_row_within(c, c.scan(best, x0, x, y0, y - 1), y - 1, x0, x, width, height);
    }
}

/// Puts a found pixel on the display.
fn spot(best: Hottest) -> (r: Option<Spot>)
    requires
        best matches Some((t, x, y)) ==> 2 * x <= usize::MAX && 2 * y <= usize::MAX,
    ensures
        r == on_display(best),
{
    match best {
        Some((t, x, y)) => {
            let (dx, dy) = matrix_to_display(x, y);
            Some((t, dx, dy))
        },
        None => None,
    }
}

/// Answers what the hottest pixel of a capture is, the temperature of each
/// point, and the hottest pixel of each rectangle. Points and rectangles are in
/// display coordinates.
pub fn run_queries(
    cap: &RadiometricCapture,
    points: &[(u32, u32)],
    rois: &[(u32, u32, u32, u32)],
) -> (a: QueryAnswers)
    requires
        cap@.wf(),
        2 * cap.width <= usize::MAX,
        2 * cap.height <= usize::MAX,
        forall|i: int|
            0 <= i < rois@.len() ==> (#[trigger] rois@[i]).0 + rois@[i].2 <= u32::MAX && rois@[i].1
                + rois@[i].3 <= u32::MAX,
    ensures
        is_frame_max(cap@, a.frame_max),
        a.points@ == points@.map_values(|p: (u32, u32)| point_answer(cap@, p)),
        a.rois@ == rois@.map_values(|r: (u32, u32, u32, u32)| roi_answer(cap@, r)),
{
    let ghost c = cap@;
    proof {
        law_wf_covers(c);
    }
    let frame_max: Option<Spot> = match cap.max_temp() {
        Some((t, x, y)) => {
            proof {
                assert(c.position(x as int, y as int) == y * cap.width + x);
                lemma_row_below(x as int, y as int, c.width as int, c.height as int);
            }
            let (dx, dy) = matrix_to_display(x, y);
            assert(is_frame_max(c, Some((t, dx, dy)))) by {
                assert(0 <= c.position(x as int, y as int) < c.temps.len());
            }
            Some((t, dx, dy))
        },
        None => None,
    };
    let mut point_list: Vec<Option<u32>> = Vec::new();
    let mut i: usize = 0;
    while i < points.len()
        invariant
            i <= points@.len(),
            c == cap@,
            c.wf(),
            forall|x: int, y: int|
                0 <= x < c.width && 0 <= y < c.height ==> 0 <= #[trigger] c.position(x, y)
                    < c.temps.len(),
            point_list@.len() == i,
            forall|j: int|
                0 <= j < i ==> #[trigger] point_list@[j] == point_answer(c, points@[j]),
        decreases points@.len() - i,
    {
        let p: (u32, u32) = points[i];
        let (x, y) = display_to_matrix(p.0, p.1);
        proof {
            if x < cap.width && y < cap.height {
                assert(0 <= c.position(x as int, y as int) < c.temps.len());
            }
        }
        point_list.push(cap.temp_at(x, y));
        i = i + 1;
    }
    let mut roi_list: Vec<Option<Spot>> = Vec::new();
    let mut k: usize = 0;
    while k < rois.len()
        invariant
            k <= rois@.len(),
            c == cap@,
            2 * cap.width <= usize::MAX,
            2 * cap.height <= usize::MAX,
            forall|x0: int, y0: int, x1: int, y1: int|
                0 <= x0 && 0 <= y0 ==> #[trigger] c.covers(x0, y0, x1, y1),
            forall|i: int|
                0 <= i < rois@.len() ==> (#[trigger] rois@[i]).0 + rois@[i].2 <= u32::MAX
                    && rois@[i].1 + rois@[i].3 <= u32::MAX,
            roi_list@.len() == k,
            forall|j: int| 0 <= j < k ==> #[trigger] roi_list@[j] == roi_answer(c, rois@[j]),
        decreases rois@.len() - k,
    {
        let r: (u32, u32, u32, u32) = rois[k];
        let best: Hottest = cap.display_max(r.0, r.1, r.2, r.3);
        proof {
            lemma_scan_within(
                c,
                None,
                to_matrix(r.0 as int),
                clipped(matrix_end(r.0 as int, r.2 as int), c.width),
                to_matrix(r.1 as int),
                clipped(matrix_end(r.1 as int, r.3 as int), c.height),
                c.width as int,
                c.height as int,
            );
        }
        roi_list.push(spot(best));
        k = k + 1;
    }
    assert(point_list@ =~= points@.map_values(|p: (u32, u32)| point_answer(c, p)));
    assert(roi_list@ =~= rois@.map_values(|r: (u32, u32, u32, u32)| roi_answer(c, r)));
    QueryAnswers { frame_max, points: point_list, rois: roi_list }
}

proof fn lemma_row_below(x: int, y: int, width: int, height: int)
    requires
        0 <= x < width,
        0 <= y,
        y * width + x < width * height,
    ensures
        y < height,
{
    assert(y < height) by (nonlinear_arith)
        requires
            0 <= x < width,
            0 <= y,
            y * width + x < width * height,
    ;
}

/// What a look at a face and a cup found; temperatures are bit patterns.
pub struct FaceStats {
    /// Hottest pixel of the face.
    pub face: Spot,
    /// Every temperature of the face.
    pub face_temps: Vec<u32>,
    /// Hottest pixel of the cup.
    pub cup: Spot,
}

/// The hottest pixel of a rectangle of the matrix, on the display; the lowest
/// finite temperature at the origin where no pixel is above that.
pub open spec fn region_answer(c: CaptureView, x0: int, y0: int, x1: int, y1: int) -> Spot {
    on_display(c.hottest(Some((LOWEST_FINITE, 0, 0)), x0, y0, x1, y1))->Some_0
}

/// Looks at the face and at the cup of the test scene.
pub fn face_stats(cap: &RadiometricCapture) -> (s: FaceStats)
    requires
        cap@.wf(),
    ensures
        s.face == region_answer(cap@, 42, 0, 88, 38),
        s.face_temps@ == cap@.rows(42, clipped(88, cap@.width), 0, clipped(38, cap@.height)),
        s.cup == region_answer(cap@, 15, 90, 45, 120),
{
    proof {
        law_wf_covers(cap@);
    }
    let face = cap.region_max(42, 0, 88, 38);
    let cup = cap.region_max(15, 90, 45, 120);
    proof {
        lemma_region_within(cap@, 42, 0, 88, 38);
        lemma_region_within(cap@, 15, 90, 45, 120);
    }
    let (fx, fy) = matrix_to_display(face.1, face.2);
    let (cx, cy) = matrix_to_display(cup.1, cup.2);
    FaceStats {
        face: (face.0, fx, fy),
        face_temps: cap.region_temps(42, 0, 88, 38),
        cup: (cup.0, cx, cy),
    }
}

proof fn lemma_region_within(c: CaptureView, x0: int, y0: int, x1: int, y1: int)
    requires
        0 <= x0 < x1 <= usize::MAX,
        0 <= y0 < y1 <= usize::MAX,
    ensures
        c.hottest(Some((LOWEST_FINITE, 0, 0)), x0, y0, x1, y1) matches Some((t, x, y)) ==> x < x1
            && y < y1,
{
    let (xm, ym) = (clipped(x1, c.width), clipped(y1, c.height));
    lemma_scan_within(c, Some((LOWEST_FINITE, 0, 0)), x0, xm, y0, ym, x1, y1);
}

/// The pixel `(px, py)` lies in the rectangle of the matrix.
pub open spec fn in_region(
    c: CaptureView,
    px: int,
    py: int,
    x0: int,
    y0: int,
    x1: int,
    y1: int,
) -> bool {
    x0 <= px < clipped(x1, c.width) && y0 <= py < clipped(y1, c.height)
}

/// `spot` is the first of the hottest pixels of the rectangle, on the display.
pub open spec fn is_first_maximum(
    c: CaptureView,
    spot: Spot,
    x0: int,
    y0: int,
    x1: int,
    y1: int,
) -> bool {
    exists|bx: int, by: int|
        {
            &&& #[trigger] in_region(c, bx, by, x0, y0, x1, y1)
            &&& spot == (c.cell(bx, by), to_display(bx) as usize, to_display(by) as usize)
            &&& forall|px: int, py: int| #[trigger]
                in_region(c, px, py, x0, y0, x1, y1) ==> {
                    &&& !exceeds(c.cell(px, py), c.cell(bx, by))
                    &&& py < by || (py == by && px < bx) ==> exceeds(c.cell(bx, by), c.cell(px, py))
                }
        }
}

/// Where every pixel of a rectangle of the matrix is a number, the answer is the
/// first of its hottest pixels if one is above the lowest finite temperature,
/// and else that temperature at the origin.
pub proof fn law_region_answer(c: CaptureView, x0: int, y0: int, x1: int, y1: int)
    requires
        0 <= x0,
        0 <= y0,
        x1 <= usize::MAX,
        y1 <= usize::MAX,
        forall|px: int, py: int| #[trigger]
            in_region(c, px, py, x0, y0, x1, y1) ==> !is_nan(c.cell(px, py)),
    ensures
        if exists|px: int, py: int| #[trigger]
            in_region(c, px, py, x0, y0, x1, y1) && exceeds(c.cell(px, py), LOWEST_FINITE) {
            is_first_maximum(c, region_answer(c, x0, y0, x1, y1), x0, y0, x1, y1)
        } else {
            region_answer(c, x0, y0, x1, y1) == (LOWEST_FINITE, 0usize, 0usize)
        },
{
    let floor = (LOWEST_FINITE, 0usize, 0usize);
    let (xm, ym) = (clipped(x1, c.width), clipped(y1, c.height));
    assert forall|px: int, py: int| x0 <= px < xm && y0 <= py < ym implies !is_nan(
        #[trigger] c.cell(px, py),
    ) by {
        assert(in_region(c, px, py, x0, y0, x1, y1));
    }
    law_hottest_above_floor(c, floor, x0, y0, x1, y1);
    if exists|px: int, py: int| #[trigger]
        in_region(c, px, py, x0, y0, x1, y1) && exceeds(c.cell(px, py), LOWEST_FINITE) {
        let (px, py) = choose|px: int, py: int| #[trigger]
            in_region(c, px, py, x0, y0, x1, y1) && exceeds(c.cell(px, py), LOWEST_FINITE);
        assert(exceeds(c.cell(px, py), floor.0));
        match c.hottest(Some(floor), x0, y0, x1, y1) {
            Some((t, bx, by)) => {
                assert(in_region(c, bx as int, by as int, x0, y0, x1, y1));
            },
            None => {},
        }
    } else {
        assert forall|px: int, py: int| x0 <= px < xm && y0 <= py < ym implies !exceeds(
            #[trigger] c.cell(px, py),
            floor.0,
        ) by {
            assert(in_region(c, px, py, x0, y0, x1, y1));
        }
    }
}

/// Where every pixel that a display rectangle covers is a number, the answer is
/// the first of the hottest of them; there is none exactly where the rectangle
/// covers no pixel of the matrix.
pub proof fn law_roi_answer(c: CaptureView, r: (u32, u32, u32, u32))
    requires
        ({
            let (x0, y0) = (to_matrix(r.0 as int), to_matrix(r.1 as int));
            let (x1, y1) = (
                matrix_end(r.0 as int, r.2 as int),
                matrix_end(r.1 as int, r.3 as int),
            );
            forall|px: int, py: int| #[trigger]
                in_region(c, px, py, x0, y0, x1, y1) ==> !is_nan(c.cell(px, py))
        }),
        r.0 + r.2 <= u32::MAX,
        r.1 + r.3 <= u32::MAX,
    ensures
        ({
            let (x0, y0) = (to_matrix(r.0 as int), to_matrix(r.1 as int));
            let (x1, y1) = (
                matrix_end(r.0 as int, r.2 as int),
                matrix_end(r.1 as int, r.3 as int),
            );
            match roi_answer(c, r) {
                Some(spot) => is_first_maximum(c, spot, x0, y0, x1, y1),
                None => forall|px: int, py: int| !#[trigger] in_region(c, px, py, x0, y0, x1, y1),
            }
        }),
{
    let (x0, y0) = (to_matrix(r.0 as int), to_matrix(r.1 as int));
    let (x1, y1) = (matrix_end(r.0 as int, r.2 as int), matrix_end(r.1 as int, r.3 as int));
    let (xm, ym) = (clipped(x1, c.width), clipped(y1, c.height));
    assert forall|px: int, py: int| x0 <= px < xm && y0 <= py < ym implies !is_nan(
        #[trigger] c.cell(px, py),
    ) by {
        assert(in_region(c, px, py, x0, y0, x1, y1));
    }
    law_hottest_is_first_maximum(c, x0, y0, x1, y1);
    match c.hottest(None, x0, y0, x1, y1) {
        Some((t, bx, by)) => {
            assert(in_region(c, bx as int, by as int, x0, y0, x1, y1));
        },
        None => {},
    }
}

/// The temperature at a display position is that of matrix pixel
/// `(p.0 / 2, p.1 / 2)`; there is none outside the matrix.
pub proof fn law_point_answer(c: CaptureView, p: (u32, u32))
    ensures
        p.0 < 2 * c.width && p.1 < 2 * c.height ==> point_answer(c, p) == Some(
            c.temps[(p.1 as int / 2) * c.width + p.0 as int / 2],
        ),
        p.0 >= 2 * c.width || p.1 >= 2 * c.height ==> point_answer(c, p) is None,
{
}

/// The answer for a display rectangle, pixel by pixel. There is one exactly where
/// the rectangle holds a display pixel of the matrix. It is found at an even
/// position, within the matrix pixel of some display pixel of the rectangle, and
/// is the temperature of that matrix pixel. If the first matrix pixel is no
/// number, it is that one; else no display pixel `(p, q)` of the rectangle is
/// hotter, and those of earlier matrix pixels are colder or no numbers.
pub proof fn law_roi_answer_by_display_pixels(
    c: CaptureView,
    r: (u32, u32, u32, u32),
    p: int,
    q: int,
)
    requires
        2 * c.width <= usize::MAX,
        2 * c.height <= usize::MAX,
    ensures
        ({
            let first = c.temps[(r.1 as int / 2) * c.width + r.0 as int / 2];
            let here = c.temps[(q / 2) * c.width + p / 2];
            let inside = r.0 <= p < r.0 + r.2 && r.1 <= q < r.1 + r.3 && p < 2 * c.width && q < 2
                * c.height;
            &&& inside ==> roi_answer(c, r) is Some
            &&& roi_answer(c, r) matches Some((t, dx, dy)) ==> {
                &&& dx as int % 2 == 0 && dy as int % 2 == 0
                &&& dx < 2 * c.width && dy < 2 * c.height
                &&& r.0 <= dx + 1 && dx < r.0 + r.2
                &&& r.1 <= dy + 1 && dy < r.1 + r.3
                &&& t == c.temps[(dy as int / 2) * c.width + dx as int / 2]
                &&& is_nan(first) ==> dx as int / 2 == r.0 as int / 2 && dy as int / 2 == r.1 as int
                    / 2
                &&& !is_nan(first) && inside ==> {
                    &&& !is_nan(t)
                    &&& !exceeds(here, t)
                    &&& q / 2 < dy as int / 2 || (q / 2 == dy as int / 2 && p / 2 < dx as int / 2)
                        ==> is_nan(here) || exceeds(t, here)
                }
            }
        }),
{
    let (x0, y0) = (to_matrix(r.0 as int), to_matrix(r.1 as int));
    let (x1, y1) = (matrix_end(r.0 as int, r.2 as int), matrix_end(r.1 as int, r.3 as int));
    let (xm, ym) = (clipped(x1, c.width), clipped(y1, c.height));
    law_rectangle_is_cut_off(c, None, x0, y0, x1, y1);
    if x0 < xm && y0 < ym {
        law_hottest_of_any_pixels(c, x0, y0, xm, ym);
        assert(c.cell(x0, y0) == c.temps[y0 * c.width + x0]);
        assert(c.cell(p / 2, q / 2) == c.temps[(q / 2) * c.width + p / 2]);
    } else {
        law_rectangle_is_cut_off(c, None, x0, y0, xm, ym);
    }
}

/// The answer for a rectangle of the matrix, pixel by pixel: the lowest finite
/// temperature, ff7fffff, at the origin where no pixel is above it; else a pixel
/// of the rectangle above it, at twice its matrix position, than which no pixel
/// `(px, py)` of the rectangle is hotter, with only colder ones and such as are
/// no numbers before it.
pub proof fn law_region_answer_by_pixels(
    c: CaptureView,
    x0: int,
    y0: int,
    x1: int,
    y1: int,
    px: int,
    py: int,
)
    requires
        0 <= x0,
        0 <= y0,
        2 * c.width <= usize::MAX,
        2 * c.height <= usize::MAX,
    ensures
        ({
            let (t, dx, dy) = region_answer(c, x0, y0, x1, y1);
            let here = c.temps[py * c.width + px];
            let inside = x0 <= px < x1 && y0 <= py < y1 && px < c.width && py < c.height;
            &&& inside ==> !exceeds(here, t)
            &&& (t == 0xff7fffff && dx == 0 && dy == 0) || {
                &&& exceeds(t, 0xff7fffff)
                &&& dx as int % 2 == 0 && dy as int % 2 == 0
                &&& 2 * x0 <= dx < 2 * x1 && dx < 2 * c.width
                &&& 2 * y0 <= dy < 2 * y1 && dy < 2 * c.height
                &&& t == c.temps[(dy as int / 2) * c.width + dx as int / 2]
                &&& inside && (py < dy as int / 2 || (py == dy as int / 2 && px < dx as int / 2))
                    ==> is_nan(here) || exceeds(t, here)
            }
        }),
{
    let floor = (LOWEST_FINITE, 0usize, 0usize);
    let (xm, ym) = (clipped(x1, c.width), clipped(y1, c.height));
    law_rectangle_is_cut_off(c, Some(floor), x0, y0, x1, y1);
    law_rectangle_is_cut_off(c, Some(floor), x0, y0, xm, ym);
    assert(c.hottest(Some(floor), x0, y0, x1, y1) == c.hottest(Some(floor), x0, y0, xm, ym));
    law_above_floor_of_any_pixels(c, floor, x0, y0, xm, ym);
    assert(c.cell(px, py) == c.temps[py * c.width + px]);
}

/// The hottest pixel of the whole matrix lies at an even display position and has
/// the temperature of its matrix pixel; no pixel ranks above it, and pixel `j`
/// ranks below it where it comes later. There is none only without pixels.
pub proof fn law_frame_max_by_pixels(c: CaptureView, t: u32, dx: usize, dy: usize, j: int)
    requires
        is_frame_max(c, Some((t, dx, dy))),
        0 <= j < c.temps.len(),
    ensures
        ({
            let at = (dy as int / 2) * c.width + dx as int / 2;
            &&& dx as int % 2 == 0 && dy as int % 2 == 0
            &&& dx < 2 * c.width
            &&& 0 <= at < c.temps.len()
            &&& t == c.temps[at]
            &&& total_rank(c.temps[j]) <= total_rank(t)
            &&& j > at ==> total_rank(c.temps[j]) < total_rank(t)
        }),
        !is_frame_max(c, None),
{
    let (x, y) = choose|x: int, y: int|
        {
            &&& 0 <= x < c.width
            &&& 0 <= #[trigger] c.position(x, y) < c.temps.len()
            &&& dx == to_display(x) && dy == to_display(y)
            &&& t == c.cell(x, y)
            &&& forall|j: int|
                0 <= j < c.temps.len() ==> total_rank(#[trigger] c.temps[j]) <= total_rank(t)
            &&& forall|j: int|
                c.position(x, y) < j < c.temps.len() ==> total_rank(#[trigger] c.temps[j])
                    < total_rank(t)
        };
    assert(x == dx as int / 2 && y == dy as int / 2);
    assert(c.position(x, y) == y * c.width + x);
}

} // verus!
