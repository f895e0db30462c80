//! Planning the auto-scroll schedule from the detected rows, and finding
//! where a playback time falls among the scheduled points.
use vstd::prelude::*;
use crate::detect::{PageFraction, TabSystem, png_systems, detect_tab_systems};

verus! {

/// A tablature row found on a page of the tab.
#[derive(Clone, Copy, Debug, PartialEq, Eq, Structural)]
pub struct DetectedRow {
    /// Zero-based page index.
    pub page: u32,
    /// Where to scroll for this row.
    pub anchor: PageFraction,
    /// The bars (measures) of the row.
    pub bars: u64,
}

/// One scheduled point: at `quarter_bars` quarter bars into the song the
/// viewport shows `anchor` of `page`.
#[derive(Clone, Copy, Debug, PartialEq, Eq, Structural)]
pub struct PlannedPoint {
    pub page: u32,
    pub anchor: PageFraction,
    pub quarter_bars: u128,
}

/// The schedule: its points, and the song's length in quarter bars, so
/// that a point sits at `duration * quarter_bars / total_quarter_bars`.
pub struct SyncPlan {
    pub points: Vec<PlannedPoint>,
    pub total_quarter_bars: u128,
}

/// Why no schedule could be made.
#[derive(Clone, Copy, Debug, PartialEq, Eq, Structural)]
pub enum SyncError {
    /// No tablature row was found on any page.
    NoTabRows,
    /// The rows hold more bars in all than a 64-bit count holds.
    TooManyBars,
}

/// The number of bars before row `i`.
pub open spec fn bars_before(rows: Seq<DetectedRow>, i: int) -> int
    decreases i,
{
    if i <= 0 {
        0
    } else {
        bars_before(rows, i - 1) + rows[i - 1].bars
    }
}

/// The point where row `i` starts: the viewport snaps to its anchor once
/// every bar before it has played.
pub open spec fn snap_point(rows: Seq<DetectedRow>, i: int) -> PlannedPoint {
    PlannedPoint {
        page: rows[i].page,
        anchor: rows[i].anchor,
        quarter_bars: (4 * bars_before(rows, i)) as u128,
    }
}

/// The point three quarters through row `i`: the viewport holds still up to
/// it, then slides on to the next row.
pub open spec fn hold_point(rows: Seq<DetectedRow>, i: int) -> PlannedPoint {
    PlannedPoint {
        page: rows[i].page,
        anchor: rows[i].anchor,
        quarter_bars: (4 * bars_before(rows, i) + 3 * rows[i].bars) as u128,
    }
}

/// The schedule for `rows`: the song is shared out among the bars, and each
/// row gives two points, a snap point at its start and a hold point three
/// quarters through it.
pub open spec fn planned_points(rows: Seq<DetectedRow>) -> Seq<PlannedPoint> {
    Seq::new(
        (2 * rows.len()) as nat,
        |k: int|
            if k % 2 == 0 {
                snap_point(rows, k / 2)
            } else {
                hold_point(rows, k / 2)
            },
    )
}

proof fn lemma_bars_before_monotone(rows: Seq<DetectedRow>, i: int, j: int)
    requires
        0 <= i <= j <= rows.len(),
    ensures
        0 <= bars_before(rows, i) <= bars_before(rows, j),
    decreases j,
{
    if j > i {
        lemma_bars_before_monotone(rows, i, j - 1);
    } else {
        lemma_bars_before_nonneg(rows, i);
    }
}

proof fn lemma_bars_before_nonneg(rows: Seq<DetectedRow>, i: int)
    ensures
        0 <= bars_before(rows, i),
    decreases i,
{
    if i > 0 {
        lemma_bars_before_nonneg(rows, i - 1);
    }
}

/// The schedule for the detected `rows`; `NoTabRows` when there are none,
/// `TooManyBars` when their bars add up to more than `u64::MAX`.
pub fn plan_sync(rows: &Vec<DetectedRow>) -> (r: Result<SyncPlan, SyncError>)
    ensures
        r == Err::<SyncPlan, SyncError>(SyncError::NoTabRows) <==> rows.len() == 0,
        r == Err::<SyncPlan, SyncError>(SyncError::TooManyBars) <==> (rows.len() > 0
            && bars_before(rows@, rows.len() as int) > u64::MAX),
        r matches Ok(plan) ==> plan.points@ == planned_points(rows@) && plan.total_quarter_bars == 4
            * bars_before(rows@, rows.len() as int),
{
    let n = rows.len();
    if n == 0 {
        return Err(SyncError::NoTabRows);
    }
    let mut sum: u64 = 0;
    let mut j: usize = 0;
    while j < n
        invariant
            n == rows.len(),
            j <= n,
            sum == bars_before(rows@, j as int),
        decreases n - j,
    {
        if sum > u64::MAX - rows[j].bars {
            proof {
                lemma_bars_before_monotone(rows@, j + 1, n as int);
            }
            return Err(SyncError::TooManyBars);
        }
        sum = sum + rows[j].bars;
        j += 1;
    }
    let ghost total = bars_before(rows@, n as int);
    let mut points: Vec<PlannedPoint> = Vec::new();
    let mut start: u64 = 0;
    let mut i: usize = 0;
    while i < n
        invariant
            n == rows.len() > 0,
            i <= n,
            total == bars_before(rows@, n as int),
            total <= u64::MAX,
            start == bars_before(rows@, i as int),
            points@ == planned_points(rows@).take(2 * i),
        decreases n - i,
    {
        proof {
            lemma_bars_before_monotone(rows@, i + 1, n as int);
        }
        let row = rows[i];
        let snap = PlannedPoint { page: row.page, anchor: row.anchor, quarter_bars: 4 * (start as u128) };
        let hold = PlannedPoint {
            page: row.page,
            anchor: row.anchor,
            quarter_bars: 4 * (start as u128) + 3 * (row.bars as u128),
        };
        points.push(snap);
        points.push(hold);
        proof {
            assert(planned_points(rows@)[2 * i as int] == snap_point(rows@, i as int));
            assert((2 * i + 1) / 2 == i);
            assert(planned_points(rows@)[2 * i + 1] == hold_point(rows@, i as int));
            assert(points@ =~= planned_points(rows@).take(2 * i + 2));
        }
        start = start + row.bars;
        i += 1;
    }
    assert(planned_points(rows@).take(2 * n as int) =~= planned_points(rows@));
    Ok(SyncPlan { points, total_quarter_bars: 4 * (start as u128) })
}

/// The rows found on page `p` of `pages` (each a rendered page image).
pub open spec fn rows_on_page(pages: Seq<Seq<u8>>, p: int) -> Seq<DetectedRow> {
    png_systems(pages[p]).map_values(
        |s: TabSystem| DetectedRow { page: p as u32, anchor: s.scroll_anchor, bars: s.bar_count },
    )
}

/// The rows found on pages `[0, p)`, page by page, each page's rows top to
/// bottom.
pub open spec fn rows_upto(pages: Seq<Seq<u8>>, p: int) -> Seq<DetectedRow>
    decreases p,
{
    if p <= 0 {
        seq![]
    } else {
        rows_upto(pages, p - 1) + rows_on_page(pages, p - 1)
    }
}

/// Every tablature row of the rendered pages, in reading order.
pub fn rows_of_pages(pages: &Vec<Vec<u8>>) -> (rows: Vec<DetectedRow>)
    requires
        pages.len() <= u32::MAX,
    ensures
        rows@ == rows_upto(pages@.map_values(|v: Vec<u8>| v@), pages.len() as int),
{
    let ghost views = pages@.map_values(|v: Vec<u8>| v@);
    let mut rows: Vec<DetectedRow> = Vec::new();
    let mut p: usize = 0;
    while p < pages.len()
        invariant
            pages.len() <= u32::MAX,
            p <= pages.len(),
            views == pages@.map_values(|v: Vec<u8>| v@),
            rows@ == rows_upto(views, p as int),
        decreases pages.len() - p,
    {
        let systems = detect_tab_systems(pages[p].as_slice());
        assert(views[p as int] == pages@[p as int]@);
        let ghost before = rows@;
        let mut k: usize = 0;
        while k < systems.len()
            invariant
                p < pages.len() <= u32::MAX,
                k <= systems.len(),
                systems@ == png_systems(views[p as int]),
                rows@ == before + rows_on_page(views, p as int).take(k as int),
            decreases systems.len() - k,
        {
            let s = systems[k];
            rows.push(DetectedRow { page: p as u32, anchor: s.scroll_anchor, bars: s.bar_count });
            assert(rows_on_page(views, p as int).take(k as int).push(
                DetectedRow { page: p as u32, anchor: s.scroll_anchor, bars: s.bar_count },
            ) =~= rows_on_page(views, p as int).take(k + 1));
            k += 1;
        }
        assert(rows_on_page(views, p as int).take(k as int) =~= rows_on_page(views, p as int));
        p += 1;
    }
    rows
}

/// The rows of the first `n` pages come page by page, and each row found on
/// page `p` carries page index `p` with the anchor and bar count of its
/// system: page `p` adds one row for each of its systems, and after the rows
/// of the pages before `p`, the `k`-th system of page `p` gives the row
/// `(p, anchor, bars)`.
pub proof fn lemma_row_of_page(pages: Seq<Seq<u8>>, n: int, p: int, k: int)
    requires
        0 <= p < n <= pages.len(),
        n <= u32::MAX + 1,
        0 <= k < png_systems(pages[p]).len(),
    ensures
        rows_upto(pages, p + 1).len() == rows_upto(pages, p).len() + png_systems(pages[p]).len(),
        rows_upto(pages, p).len() + k < rows_upto(pages, n).len(),
        rows_upto(pages, n)[rows_upto(pages, p).len() + k] == (DetectedRow {
            page: p as u32,
            anchor: png_systems(pages[p])[k].scroll_anchor,
            bars: png_systems(pages[p])[k].bar_count,
        }),
    decreases n,
{
    assert(rows_upto(pages, p + 1) == rows_upto(pages, p) + rows_on_page(pages, p));
    let prev = rows_upto(pages, n - 1);
    let cur = rows_upto(pages, n);
    assert(cur == prev + rows_on_page(pages, n - 1));
    let i = rows_upto(pages, p).len() + k;
    if p < n - 1 {
        lemma_row_of_page(pages, n - 1, p, k);
        assert(cur[i] == prev[i]);
    } else {
        assert(cur[i] == rows_on_page(pages, n - 1)[k]);
    }
}

/// The auto-scroll schedule for a tab given as its rendered pages: the
/// rows of every page in reading order, planned by `plan_sync`.
pub fn plan_simple_sync(pages: &Vec<Vec<u8>>) -> (r: Result<SyncPlan, SyncError>)
    requires
        pages.len() <= u32::MAX,
    ensures
        ({
            let rows = rows_upto(pages@.map_values(|v: Vec<u8>| v@), pages.len() as int);
            &&& r == Err::<SyncPlan, SyncError>(SyncError::NoTabRows) <==> rows.len() == 0
            &&& r == Err::<SyncPlan, SyncError>(SyncError::TooManyBars) <==> (rows.len() > 0
                && bars_before(rows, rows.len() as int) > u64::MAX)
            &&& r matches Ok(plan) ==> plan.points@ == planned_points(rows)
                && plan.total_quarter_bars == 4 * bars_before(rows, rows.len() as int)
        }),
{
    let rows = rows_of_pages(pages);
    plan_sync(&rows)
}

/// The schedule keeps time: each row gives two points, its first point is
/// at the start of the song, no point comes before the one listed ahead of
/// it, each row starts exactly when the bars before it have played (so every
/// bar gets the same share of the song), each row's hold point sits three
/// quarters of the way through the row, and the last row ends with the song.
pub proof fn lemma_planned_points_timing(rows: Seq<DetectedRow>)
    requires
        rows.len() > 0,
        bars_before(rows, rows.len() as int) <= u64::MAX,
    ensures
        planned_points(rows).len() == 2 * rows.len(),
        planned_points(rows)[0].quarter_bars == 0,
        forall|k: int|
            0 <= k < planned_points(rows).len() - 1 ==> (#[trigger] planned_points(rows)[k]).quarter_bars
                <= planned_points(rows)[k + 1].quarter_bars,
        forall|i: int|
            0 <= i < rows.len() - 1 ==> (#[trigger] planned_points(rows)[2 * i + 2]).quarter_bars
                - planned_points(rows)[2 * i].quarter_bars == 4 * rows[i].bars,
        forall|i: int|
            0 <= i < rows.len() ==> 4 * ((#[trigger] planned_points(rows)[2 * i + 1]).quarter_bars
                - planned_points(rows)[2 * i].quarter_bars) == 3 * (4 * rows[i].bars),
        forall|i: int|
            0 <= i < rows.len() ==> (#[trigger] planned_points(rows)[2 * i]).page == rows[i].page
                && planned_points(rows)[2 * i].anchor == rows[i].anchor && planned_points(rows)[2 * i
                + 1].page == rows[i].page && planned_points(rows)[2 * i + 1].anchor == rows[i].anchor,
        planned_points(rows)[2 * rows.len() - 2].quarter_bars + 4 * rows[rows.len() - 1].bars == 4
            * bars_before(rows, rows.len() as int),
{
    let pts = planned_points(rows);
    let n = rows.len() as int;
    assert forall|i: int| 0 <= i <= n implies 0 <= #[trigger] bars_before(rows, i) <= bars_before(rows, n) by {
        lemma_bars_before_monotone(rows, i, n);
    }
    assert forall|k: int| 0 <= k < pts.len() - 1 implies (#[trigger] pts[k]).quarter_bars
        <= pts[k + 1].quarter_bars by {
        let i = k / 2;
        assert(bars_before(rows, i + 1) == bars_before(rows, i) + rows[i].bars);
        assert(0 <= bars_before(rows, i + 1) <= bars_before(rows, n));
        if k % 2 == 1 {
            assert((k + 1) / 2 == i + 1);
        } else {
            assert((k + 1) / 2 == i);
        }
    }
    assert forall|i: int| 0 <= i < n - 1 implies (#[trigger] pts[2 * i + 2]).quarter_bars
        - pts[2 * i].quarter_bars == 4 * rows[i].bars by {
        assert((2 * i + 2) / 2 == i + 1);
        assert(bars_before(rows, i + 1) == bars_before(rows, i) + rows[i].bars);
        assert(0 <= bars_before(rows, i + 1) <= bars_before(rows, n));
    }
    assert forall|i: int| 0 <= i < n implies 4 * ((#[trigger] pts[2 * i + 1]).quarter_bars
        - pts[2 * i].quarter_bars) == 3 * (4 * rows[i].bars) by {
        assert((2 * i + 1) / 2 == i);
        assert(bars_before(rows, i + 1) == bars_before(rows, i) + rows[i].bars);
        assert(0 <= bars_before(rows, i + 1) <= bars_before(rows, n));
    }
    assert forall|i: int| 0 <= i < n implies (#[trigger] pts[2 * i]).page == rows[i].page
        && pts[2 * i].anchor == rows[i].anchor && pts[2 * i + 1].page == rows[i].page
        && pts[2 * i + 1].anchor == rows[i].anchor by {
        assert((2 * i + 1) / 2 == i);
    }
    assert(bars_before(rows, n) == bars_before(rows, n - 1) + rows[n - 1].bars);
    assert(0 <= bars_before(rows, n - 1) <= bars_before(rows, n));
}

/// Where a playback time falls among the points of a schedule: `le[i]`
/// tells whether point `i` is due at or before that time.
#[derive(Clone, Copy, Debug, PartialEq, Eq, Structural)]
pub enum Bracket {
    /// The schedule has no points.
    Empty,
    /// Before the first point.
    BeforeFirst,
    /// At or after the last point.
    AfterLast,
    /// Between point `i - 1` (due) and point `i` (not yet due).
    Between(usize),
}

/// `le` reads `true` up to position `p` and `false` from there on.
pub open spec fn splits_at(le: Seq<bool>, p: int) -> bool {
    &&& 0 <= p <= le.len()
    &&& forall|i: int| 0 <= i < p ==> #[trigger] le[i]
    &&& forall|i: int| p <= i < le.len() ==> !#[trigger] le[i]
}

/// A boundary of `le`: every point before `p` (if any) is due, the point at
/// `p` (if any) is not.
pub open spec fn boundary(le: Seq<bool>, p: int) -> bool {
    &&& 0 <= p <= le.len()
    &&& (p == 0 || le[p - 1])
    &&& (p == le.len() || !le[p])
}

/// The partition point of `le` by binary search, as `slice::partition_point`
/// finds it: a boundary of `le`, and where `le` is partitioned, the number
/// of leading `true`s.
pub fn partition_point(le: &Vec<bool>) -> (p: usize)
    ensures
        boundary(le@, p as int),
        forall|q: int| splits_at(le@, q) ==> p == q,
{
    let mut lo: usize = 0;
    let mut hi: usize = le.len();
    while lo < hi
        invariant
            lo <= hi <= le.len(),
            lo == 0 || le@[lo - 1],
            hi == le.len() || !le@[hi as int],
        decreases hi - lo,
    {
        let mid = lo + (hi - lo) / 2;
        if le[mid] {
            lo = mid + 1;
        } else {
            hi = mid;
        }
    }
    lo
}

/// The bracket of a boundary `p` among `n` points.
pub open spec fn bracket_at(n: int, p: int) -> Bracket {
    if p == 0 {
        Bracket::BeforeFirst
    } else if p == n {
        Bracket::AfterLast
    } else {
        Bracket::Between(p as usize)
    }
}

/// Where the time whose comparisons are `le` falls among the points: at a
/// boundary of `le`, which for a schedule in time order is the only one.
pub fn bracket(le: &Vec<bool>) -> (b: Bracket)
    ensures
        le.len() == 0 <==> b == Bracket::Empty,
        le.len() > 0 ==> exists|p: int| #[trigger] boundary(le@, p) && b == bracket_at(le.len() as int, p),
        forall|q: int|
            le.len() > 0 && #[trigger] splits_at(le@, q) ==> b == bracket_at(le.len() as int, q),
{
    if le.len() == 0 {
        return Bracket::Empty;
    }
    let p = partition_point(le);
    assert(boundary(le@, p as int));
    if p == 0 {
        Bracket::BeforeFirst
    } else if p >= le.len() {
        Bracket::AfterLast
    } else {
        Bracket::Between(p)
    }
}

/// Where the view should be at a playback time.
#[derive(Clone, Copy, Debug, PartialEq, Eq, Structural)]
pub enum ScrollTarget {
    /// The schedule is empty: nothing to show.
    Nowhere,
    /// Exactly the position of point `i`.
    At(usize),
    /// Between points `i` and `i + 1`, in proportion to the time passed.
    Slide(usize),
}

/// The target for boundary `p` among the points with pages `pages`: before
/// the first point, the first; after the last, the last; between two points
/// of one page, a slide from the earlier to the later; between two pages, a
/// hold at the earlier point (the jump to the next page comes when the later
/// point falls due).
pub open spec fn target_at(pages: Seq<u32>, p: int) -> ScrollTarget {
    if p == 0 {
        ScrollTarget::At(0)
    } else if p == pages.len() {
        ScrollTarget::At((pages.len() - 1) as usize)
    } else if pages[p - 1] != pages[p] {
        ScrollTarget::At((p - 1) as usize)
    } else {
        ScrollTarget::Slide((p - 1) as usize)
    }
}

/// Where the view goes at a time whose comparisons with the points' times
/// are `le` (`le[i]`: point `i` is due); `pages` are the points' pages.
pub fn scroll_target(le: &Vec<bool>, pages: &Vec<u32>) -> (t: ScrollTarget)
    requires
        le.len() == pages.len(),
    ensures
        le.len() == 0 <==> t == ScrollTarget::Nowhere,
        le.len() > 0 ==> exists|p: int| #[trigger] boundary(le@, p) && t == target_at(pages@, p),
        forall|q: int| le.len() > 0 && #[trigger] splits_at(le@, q) ==> t == target_at(pages@, q),
        forall|q: int|
            #[trigger] splits_at(le@, q) && 0 < q < le.len() ==> (pages@[q - 1] == pages@[q] ==> t
                == ScrollTarget::Slide((q - 1) as usize)) && (pages@[q - 1] != pages@[q] ==> t
                == ScrollTarget::At((q - 1) as usize)),
        forall|q: int| #[trigger] splits_at(le@, q) && le.len() > 0 && q == 0 ==> t == ScrollTarget::At(0),
        forall|q: int|
            #[trigger] splits_at(le@, q) && le.len() > 0 && q == le.len() ==> t == ScrollTarget::At(
                (le.len() - 1) as usize,
            ),
{
    let b = bracket(le);
    let t = match b {
        Bracket::Empty => ScrollTarget::Nowhere,
        Bracket::BeforeFirst => ScrollTarget::At(0),
        Bracket::AfterLast => ScrollTarget::At(le.len() - 1),
        Bracket::Between(i) => {
            if pages[i - 1] != pages[i] {
                ScrollTarget::At(i - 1)
            } else {
                ScrollTarget::Slide(i - 1)
            }
        },
    };
    proof {
        if le.len() > 0 {
            let p = choose|p: int| #[trigger] boundary(le@, p) && b == bracket_at(le.len() as int, p);
            assert(boundary(le@, p) && t == target_at(pages@, p));
        }
    }
    t
}

/// Between two points that are due one after the other the view slides
/// when both lie on one page and holds at the earlier one when the later
/// point is on another page; before the first point it shows the first,
/// after the last the last.
pub proof fn lemma_slide_within_page_hold_across(pages: Seq<u32>, q: int)
    requires
        0 <= q <= pages.len(),
        pages.len() > 0,
    ensures
        0 < q < pages.len() && pages[q - 1] == pages[q] ==> target_at(pages, q) == ScrollTarget::Slide(
            (q - 1) as usize,
        ),
        0 < q < pages.len() && pages[q - 1] != pages[q] ==> target_at(pages, q) == ScrollTarget::At(
            (q - 1) as usize,
        ),
        q == 0 ==> target_at(pages, q) == ScrollTarget::At(0),
        q == pages.len() ==> target_at(pages, q) == ScrollTarget::At((pages.len() - 1) as usize),
{
}

} // verus!
