//! Detection of tablature systems on a rendered page.
//!
//! Positions are kept exact: string-line positions in half pixels, string
//! centers in quarter pixels and scroll anchors in units of 1/600 pixel, so
//! that every threshold of the detector is an exact rational comparison.
use vstd::prelude::*;

verus! {

/// An 8-bit grayscale raster, row-major, one byte per pixel.
pub struct GrayImage {
    pub width: u32,
    pub height: u32,
    pub pixels: Vec<u8>,
}

/// The contents of a grayscale raster.
pub struct GrayView {
    pub width: u32,
    pub height: u32,
    pub pixels: Seq<u8>,
}

impl GrayView {
    /// The samples cover at least `width * height` pixels.
    pub open spec fn wf(&self) -> bool {
        self.pixels.len() >= self.width * self.height
    }

    /// The sample at column `x`, row `y`.
    pub open spec fn pixel(&self, x: int, y: int) -> u8 {
        self.pixels[y * self.width + x]
    }
}

impl View for GrayImage {
    type V = GrayView;

    open spec fn view(&self) -> GrayView {
        GrayView { width: self.width, height: self.height, pixels: self.pixels@ }
    }
}

impl GrayImage {
    /// The buffer holds at least `width * height` samples.
    pub open spec fn wf(&self) -> bool {
        self@.wf()
    }

    /// The sample at column `x`, row `y`.
    pub open spec fn pixel(&self, x: int, y: int) -> u8 {
        self@.pixel(x, y)
    }

    /// An image over `pixels`, or `None` when the buffer is shorter than
    /// `width * height` (as `ImageBuffer::from_raw`).
    pub fn from_raw(width: u32, height: u32, pixels: Vec<u8>) -> (r: Option<GrayImage>)
        ensures
            r is Some <==> pixels@.len() >= width * height,
            r matches Some(img) ==> img.width == width && img.height == height && img.pixels@
                == pixels@,
    {
        assert((width as u64) * (height as u64) <= u64::MAX) by (nonlinear_arith)
            requires
                width <= u32::MAX,
                height <= u32::MAX,
        ;
        let need: u64 = (width as u64) * (height as u64);
        if (pixels.len() as u64) >= need {
            Some(GrayImage { width, height, pixels })
        } else {
            None
        }
    }

    /// The sample at column `x`, row `y`.
    pub fn get_pixel(&self, x: u32, y: u32) -> (p: u8)
        requires
            self.wf(),
            x < self.width,
            y < self.height,
        ensures
            p == self.pixel(x as int, y as int),
    {
        proof {
            lemma_index_in_bounds(x as int, y as int, self.width as int, self.height as int);
            assert(0 <= (y as int) * (self.width as int)) by (nonlinear_arith)
                requires
                    0 <= y,
                    0 <= self.width,
            ;
            assert((y as int) * (self.width as int) + (x as int) < self.pixels.len());
        }
        let row_start: usize = (y as usize) * (self.width as usize);
        self.pixels[row_start + (x as usize)]
    }
}

proof fn lemma_index_in_bounds(x: int, y: int, w: int, h: int)
    requires
        0 <= x < w,
        0 <= y < h,
    ensures
        0 <= y * w + x < w * h,
{
    assert(y * w <= (h - 1) * w) by (nonlinear_arith)
        requires
            0 <= y <= h - 1,
            0 <= w,
    ;
    assert((h - 1) * w == h * w - w) by (nonlinear_arith);
    assert(w * h == h * w) by (nonlinear_arith);
    assert(0 <= y * w) by (nonlinear_arith)
        requires
            0 <= y,
            0 <= w,
    ;
}

/// The darkness threshold: samples below it count as ink.
pub const DARK_THRESHOLD: u8 = 110;

/// The widest run of light samples tolerated between two inked samples of a
/// string line.
pub const MAX_LINE_GAP: u64 = 25;

pub open spec fn is_dark(img: GrayView, x: int, y: int, threshold: u8) -> bool {
    img.pixel(x, y) < threshold
}

/// The number of dark samples of row `y` in columns `[x0, x1)`.
pub open spec fn dark_count(img: GrayView, y: int, x0: int, x1: int, threshold: u8) -> nat
    decreases x1 - x0,
{
    if x1 <= x0 {
        0
    } else {
        dark_count(img, y, x0, x1 - 1, threshold) + if is_dark(img, x1 - 1, y, threshold) {
            1nat
        } else {
            0nat
        }
    }
}

/// Columns `i < j` of row `y` are both dark and only light samples lie between.
pub open spec fn consecutive_dark(img: GrayView, y: int, i: int, j: int, threshold: u8) -> bool {
    &&& i < j
    &&& is_dark(img, i, y, threshold)
    &&& is_dark(img, j, y, threshold)
    &&& forall|k: int| i < k < j ==> !is_dark(img, k, y, threshold)
}

/// No run of light samples between two dark samples of row `y` within
/// `[x0, x1)` is longer than `limit`.
pub open spec fn gaps_within(img: GrayView, y: int, x0: int, x1: int, threshold: u8, limit: int) -> bool {
    forall|i: int, j: int|
        x0 <= i && j < x1 && #[trigger] consecutive_dark(img, y, i, j, threshold) ==> j - i - 1
            <= limit
}

/// Row `y` is a string line: at least 30% of the `inner_width` columns
/// `[x0, x1)` are dark, and no light gap between dark samples there is wider
/// than 25 samples.
pub open spec fn row_is_line(img: GrayView, y: int, x0: int, x1: int, threshold: u8, inner_width: int) -> bool {
    &&& inner_width > 0
    &&& 10 * dark_count(img, y, x0, x1, threshold) >= 3 * inner_width
    &&& gaps_within(img, y, x0, x1, threshold, MAX_LINE_GAP as int)
}

/// Whether row `y` is a string line (see `row_is_line`).
pub fn row_is_string_line(img: &GrayImage, y: u32, x0: u32, x1: u32, threshold: u8, inner_width: usize) -> (b: bool)
    requires
        img.wf(),
        y < img.height,
        x0 <= x1 <= img.width,
    ensures
        b == row_is_line(img@, y as int, x0 as int, x1 as int, threshold, inner_width as int),
{
    let mut dark: u64 = 0;
    let mut max_gap: u64 = 0;
    let mut current_gap: u64 = 0;
    let mut first_dark = false;
    let mut in_dark = false;
    let ghost mut last: int = 0;
    let mut x = x0;
    while x < x1
        invariant
            img.wf(),
            y < img.height,
            x0 <= x <= x1 <= img.width,
            dark == dark_count(img@, y as int, x0 as int, x as int, threshold),
            dark <= x - x0,
            current_gap <= x - x0,
            max_gap <= x - x0,
            first_dark ==> x0 <= last < x && is_dark(img@, last, y as int, threshold),
            first_dark ==> current_gap == x - 1 - last,
            !first_dark ==> current_gap == 0,
            first_dark ==> forall|k: int| last < k < x ==> !is_dark(img@, k, y as int, threshold),
            !first_dark ==> forall|k: int| x0 <= k < x ==> !is_dark(img@, k, y as int, threshold),
            in_dark <==> (first_dark && last == x - 1),
            forall|i: int, j: int|
                x0 <= i && j < x && #[trigger] consecutive_dark(img@, y as int, i, j, threshold)
                    ==> j - i - 1 <= max_gap,
            max_gap == 0 || exists|i: int, j: int|
                x0 <= i && j < x && #[trigger] consecutive_dark(img@, y as int, i, j, threshold) && j
                    - i - 1 == max_gap,
        decreases x1 - x,
    {
        let is_d = img.get_pixel(x, y) < threshold;
        if is_d {
            proof {
                if first_dark {
                    assert(consecutive_dark(img@, y as int, last, x as int, threshold));
                }
                assert forall|i: int, j: int|
                    x0 <= i && j < x + 1 && #[trigger] consecutive_dark(
                        img@,
                        y as int,
                        i,
                        j,
                        threshold,
                    ) implies j - i - 1 <= (if first_dark && current_gap > max_gap {
                    current_gap
                } else {
                    max_gap
                }) by {
                    if j == x {
                        if first_dark {
                            if i < last {
                                assert(i < last < j);
                            } else if i > last {
                                assert(last < i < x);
                            }
                        } else {
                            assert(x0 <= i < x);
                        }
                    }
                }
            }
            dark += 1;
            if first_dark && !in_dark {
                if current_gap > max_gap {
                    max_gap = current_gap;
                }
                current_gap = 0;
            }
            first_dark = true;
            in_dark = true;
            proof {
                last = x as int;
            }
        } else {
            in_dark = false;
            if first_dark {
                current_gap += 1;
            }
        }
        x += 1;
    }
    let covered = inner_width > 0 && (dark as u128) * 10 >= (inner_width as u128) * 3;
    covered && max_gap <= 25
}

/// The maximal runs of `true` among `rows[0..n)`, in order, as half-open
/// `(start, end)` pairs: each row either extends the run that the row before
/// it closed, starts a new one, or is outside every run.
pub open spec fn runs_upto(rows: Seq<bool>, n: int) -> Seq<(int, int)>
    decreases n,
{
    if n <= 0 {
        seq![]
    } else {
        let prev = runs_upto(rows, n - 1);
        if !rows[n - 1] {
            prev
        } else if n >= 2 && rows[n - 2] {
            prev.update(prev.len() - 1, (prev.last().0, n))
        } else {
            prev.push((n - 1, n))
        }
    }
}

/// Runs that are well separated: each is non-empty, within `[0, n)`, and a
/// gap of at least one row lies between consecutive runs.
pub open spec fn runs_ordered(r: Seq<(int, int)>, n: int) -> bool {
    &&& forall|k: int| 0 <= k < r.len() ==> 0 <= (#[trigger] r[k]).0 < r[k].1 <= n
    &&& forall|k: int| 0 <= k < r.len() - 1 ==> (#[trigger] r[k]).1 < r[k + 1].0
}

proof fn lemma_runs_upto(rows: Seq<bool>, n: int)
    requires
        0 <= n <= rows.len(),
    ensures
        runs_ordered(runs_upto(rows, n), n),
        n >= 1 && rows[n - 1] ==> runs_upto(rows, n).len() > 0 && runs_upto(rows, n).last().1 == n,
        n >= 1 && !rows[n - 1] ==> forall|k: int|
            0 <= k < runs_upto(rows, n).len() ==> (#[trigger] runs_upto(rows, n)[k]).1 < n,
    decreases n,
{
    if n > 0 {
        lemma_runs_upto(rows, n - 1);
    }
}

/// The center of every string line of `rows`, in half rows: the sum of the
/// first and one-past-last row of each maximal run.
pub open spec fn line_centers(rows: Seq<bool>) -> Seq<u64> {
    runs_upto(rows, rows.len() as int).map_values(|r: (int, int)| (r.0 + r.1) as u64)
}

/// The doubled center of each maximal run of qualifying rows.
pub fn collapse_lines(rows: &Vec<bool>) -> (lines: Vec<u64>)
    requires
        rows.len() <= u32::MAX,
    ensures
        lines@ == line_centers(rows@),
{
    let height = rows.len();
    let mut lines: Vec<u64> = Vec::new();
    let mut in_line = false;
    let mut line_start: usize = 0;
    let mut y: usize = 0;
    while y < height
        invariant
            height == rows.len() <= u32::MAX,
            y <= height,
            in_line ==> y >= 1 && rows@[y - 1] && line_start < y,
            !in_line ==> y == 0 || !rows@[y - 1],
            in_line ==> runs_upto(rows@, y as int).len() == lines.len() + 1,
            in_line ==> runs_upto(rows@, y as int).last() == (line_start as int, y as int),
            !in_line ==> runs_upto(rows@, y as int).len() == lines.len(),
            forall|k: int| 0 <= k < lines.len() ==> #[trigger] lines@[k] == (runs_upto(rows@, y as int)[k].0 + runs_upto(rows@, y as int)[k].1) as u64,
        decreases height - y,
    {
        let ghost prev = runs_upto(rows@, y as int);
        let ghost next = runs_upto(rows@, y + 1);
        let r = rows[y];
        if r && !in_line {
            assert(next == prev.push((y as int, y + 1)));
            in_line = true;
            line_start = y;
        } else if !r && in_line {
            assert(next == prev);
            in_line = false;
            lines.push((line_start as u64) + (y as u64));
        } else if r {
            assert(next == prev.update(prev.len() - 1, (line_start as int, y + 1)));
        } else {
            assert(next == prev);
        }
        y += 1;
    }
    if in_line {
        lines.push((line_start as u64) + (height as u64));
    }
    proof {
        let rr = runs_upto(rows@, height as int);
        assert(lines@ =~= line_centers(rows@));
    }
    lines
}

/// The ascending order on samples and positions.
pub open spec fn ascending() -> spec_fn(u64, u64) -> bool {
    |a: u64, b: u64| a <= b
}

/// The element at position `len / 2` of `s` once sorted ascending (for an
/// even length, the upper of the two middle elements).
pub open spec fn median(s: Seq<u64>) -> u64 {
    s.sort_by(ascending())[(s.len() / 2) as int]
}

proof fn lemma_ascending_total()
    ensures
        vstd::relations::total_ordering(ascending()),
{
}

proof fn lemma_swap_multiset(s: Seq<u64>, i: int, j: int)
    requires
        0 <= i < s.len(),
        0 <= j < s.len(),
    ensures
        s.update(i, s[j]).update(j, s[i]).to_multiset() =~= s.to_multiset(),
{
    broadcast use vstd::seq_lib::group_to_multiset_ensures;
    broadcast use vstd::multiset::group_multiset_axioms;

    let m = s.to_multiset();
    let s1 = s.update(i, s[j]);
    let m1 = m.insert(s[j]).remove(s[i]);
    assert(s.contains(s[i]));
    assert(m.count(s[i]) > 0);
    assert(s1.to_multiset() == m1);
    if i != j {
        assert(s1[j] == s[j]);
    }
    let m2 = m1.insert(s[i]).remove(s[j]);
    assert(s1.update(j, s[i]).to_multiset() == m2);
    assert(m1.insert(s[i]).count(s[j]) > 0);
    assert forall|x: u64| m2.count(x) == m.count(x) by {
    }
    assert(m2 =~= m);
}

/// `v` sorted ascending.
pub fn sorted_ascending(v: &Vec<u64>) -> (r: Vec<u64>)
    ensures
        r@ == v@.sort_by(ascending()),
{
    let n = v.len();
    let mut a: Vec<u64> = Vec::new();
    let mut k: usize = 0;
    while k < n
        invariant
            n == v.len(),
            k <= n,
            a@ == v@.take(k as int),
        decreases n - k,
    {
        a.push(v[k]);
        assert(v@.take(k as int).push(v@[k as int]) =~= v@.take(k + 1));
        k += 1;
    }
    assert(v@.take(n as int) =~= v@);
    let mut i: usize = 1;
    while i < n
        invariant
            n == v.len() == a.len(),
            1 <= i || n == 0,
            a@.to_multiset() == v@.to_multiset(),
            forall|p: int, q: int| 0 <= p < q < i && q < n ==> a@[p] <= a@[q],
        decreases n - i,
    {
        let mut j = i;
        while j > 0 && a[j - 1] > a[j]
            invariant
                n == v.len() == a.len(),
                1 <= i < n,
                j <= i,
                a@.to_multiset() == v@.to_multiset(),
                forall|p: int, q: int| 0 <= p < q <= i && q != j ==> a@[p] <= a@[q],
            decreases j,
        {
            let ghost before = a@;
            let x = a[j - 1];
            let y = a[j];
            a.set(j - 1, y);
            a.set(j, x);
            proof {
                lemma_swap_multiset(before, j - 1, j as int);
                assert(a@ == before.update(j - 1, before[j as int]).update(j as int, before[j - 1]));
                assert forall|p: int, q: int| 0 <= p < q <= i && q != j - 1 implies a@[p] <= a@[q] by {
                    if q == j {
                        assert(before[j - 1] > before[j as int]);
                        if p < j - 1 {
                            assert(before[p] <= before[j - 1]);
                        }
                    } else if p == j - 1 {
                        assert(before[j as int] < before[j - 1]);
                        assert(before[j - 1] <= before[q]);
                    } else if p == j {
                        assert(before[j - 1] <= before[q]);
                    }
                }
            }
            j -= 1;
        }
        proof {
            assert forall|p: int, q: int| 0 <= p < q < i + 1 && q < n implies a@[p] <= a@[q] by {
                if q == j && p < j {
                    assert(a@[p] <= a@[j - 1]);
                }
            }
        }
        i += 1;
    }
    proof {
        lemma_ascending_total();
        v@.lemma_sort_by_ensures(ascending());
        assert(vstd::relations::sorted_by(a@, ascending()));
        vstd::seq_lib::lemma_sorted_unique(a@, v@.sort_by(ascending()), ascending());
    }
    a
}

/// The median (see `median`) of a non-empty `v`.
pub fn median_of(v: &Vec<u64>) -> (m: u64)
    requires
        v.len() > 0,
    ensures
        m == median(v@),
{
    let sorted = sorted_ascending(v);
    proof {
        lemma_ascending_total();
        v@.lemma_sort_by_ensures(ascending());
        broadcast use vstd::seq_lib::group_to_multiset_ensures;
        assert(sorted@.len() == sorted@.to_multiset().len());
        assert(v@.len() == v@.to_multiset().len());
    }
    sorted[v.len() / 2]
}

/// A group of evenly spaced string lines; `top` and `bottom` are the first
/// and last line positions in half pixels.
#[derive(Clone, Copy, Debug, PartialEq, Eq, Structural)]
pub struct Stave {
    pub line_count: u64,
    pub top: u64,
    pub bottom: u64,
}

pub open spec fn abs_int(x: int) -> int {
    if x < 0 { -x } else { x }
}

/// Every position is below `2^34` and the positions strictly increase.
pub open spec fn positions_ok(l: Seq<u64>) -> bool {
    &&& forall|k: int| 0 <= k < l.len() ==> #[trigger] l[k] < 0x4_0000_0000
    &&& forall|i: int, j: int| 0 <= i < j < l.len() ==> l[i] < l[j]
}

/// The spacing after line `k` is within 35% of the mean spacing `span / m`.
pub open spec fn spacing_even(l: Seq<u64>, k: int, m: int, span: int) -> bool {
    100 * abs_int((l[k + 1] - l[k]) * m - span) <= 35 * span
}

/// Lines `l[a..b)` form a stave: there are four to six of them, their mean
/// spacing lies between 3 and 35 pixels, and no spacing differs from the mean
/// by more than 35% of it. (`l[b - 1] - l[a]` is the sum of the spacings, in
/// half pixels.)
pub open spec fn group_accepted(l: Seq<u64>, a: int, b: int) -> bool {
    let n = b - a;
    let span = l[b - 1] - l[a];
    &&& 4 <= n <= 6
    &&& 6 * (n - 1) <= span <= 70 * (n - 1)
    &&& forall|k: int| a <= k < b - 1 ==> #[trigger] spacing_even(l, k, n - 1, span)
}

/// The stave made of lines `l[a..b)`.
pub open spec fn stave_of(l: Seq<u64>, a: int, b: int) -> Stave {
    Stave { line_count: (b - a) as u64, top: l[a], bottom: l[b - 1] }
}

/// The stave of lines `l[a..b)` if they form one, else nothing.
pub open spec fn commit(l: Seq<u64>, a: int, b: int) -> Seq<Stave> {
    if group_accepted(l, a, b) {
        seq![stave_of(l, a, b)]
    } else {
        seq![]
    }
}

/// The gap after line `i` separates two groups: it is wider than two and a
/// half times the median gap `med`.
pub open spec fn is_break(l: Seq<u64>, med: u64, i: int) -> bool {
    2 * (l[i + 1] - l[i]) > 5 * med
}

/// The staves of lines `l[start..]`, where the group now open began at
/// `start` and the gaps before `i` have been looked at: the lines are cut into
/// groups at every break, and each group that forms a stave gives one.
pub open spec fn staves_from(l: Seq<u64>, med: u64, i: int, start: int) -> Seq<Stave>
    decreases l.len() - i,
{
    if i >= l.len() - 1 {
        commit(l, start, l.len() as int)
    } else if is_break(l, med, i) {
        commit(l, start, i + 1) + staves_from(l, med, i + 1, i + 1)
    } else {
        staves_from(l, med, i + 1, start)
    }
}

/// The gaps between consecutive positions.
pub open spec fn gaps_of(l: Seq<u64>) -> Seq<u64> {
    Seq::new((l.len() - 1) as nat, |i: int| (l[i + 1] - l[i]) as u64)
}

/// The staves among the string lines `l` (at least four of them).
pub open spec fn staves_of(l: Seq<u64>) -> Seq<Stave> {
    staves_from(l, median(gaps_of(l)), 0, 0)
}

fn abs_diff(x: u64, y: u64) -> (d: u64)
    ensures
        d == abs_int(x - y),
{
    if x >= y { x - y } else { y - x }
}

/// The stave of lines `l[a..b)`, if they form one.
fn commit_group(l: &Vec<u64>, a: usize, b: usize) -> (r: Option<Stave>)
    requires
        a < b <= l.len(),
        positions_ok(l@),
    ensures
        r is Some <==> group_accepted(l@, a as int, b as int),
        r matches Some(st) ==> st == stave_of(l@, a as int, b as int),
{
    let n = b - a;
    if n < 4 || n > 6 {
        return None;
    }
    let span = l[b - 1] - l[a];
    let m = (n - 1) as u64;
    if span < 6 * m || span > 70 * m {
        return None;
    }
    let mut k = a;
    while k < b - 1
        invariant
            a <= k <= b - 1,
            b <= l.len(),
            n == b - a,
            4 <= n <= 6,
            m == n - 1,
            span == l@[b - 1] - l@[a as int],
            span <= 70 * m,
            positions_ok(l@),
            forall|j: int| a <= j < k ==> #[trigger] spacing_even(l@, j, m as int, span as int),
        decreases b - 1 - k,
    {
        let d = l[k + 1] - l[k];
        assert(d <= span) by {
            assert(l@[a as int] <= l@[k as int]);
            assert(l@[k + 1] <= l@[b - 1]);
        }
        assert(d * m <= 2000) by (nonlinear_arith)
            requires
                d <= 350,
                m <= 5,
        ;
        let dev = abs_diff(d * m, span);
        if 100 * dev > 35 * span {
            assert(!spacing_even(l@, k as int, m as int, span as int));
            return None;
        }
        k += 1;
    }
    Some(Stave { line_count: n as u64, top: l[a], bottom: l[b - 1] })
}

/// The staves among the string lines `l`, cut into groups at every gap wider
/// than two and a half times `med`.
fn split_staves(l: &Vec<u64>, med: u64) -> (r: Vec<Stave>)
    requires
        l.len() >= 1,
        positions_ok(l@),
        med < 0x4_0000_0000,
    ensures
        r@ == staves_from(l@, med, 0, 0),
{
    let mut staves: Vec<Stave> = Vec::new();
    let mut start: usize = 0;
    let last = l.len() - 1;
    let mut i: usize = 0;
    while i < last
        invariant
            last == l.len() - 1,
            start <= i <= last,
            positions_ok(l@),
            med < 0x4_0000_0000,
            staves@ + staves_from(l@, med, i as int, start as int) == staves_from(l@, med, 0, 0),
        decreases last - i,
    {
        let gap = l[i + 1] - l[i];
        if 2 * gap > 5 * med {
            let c = commit_group(l, start, i + 1);
            let ghost before = staves@;
            match c {
                Some(st) => {
                    staves.push(st);
                },
                None => {},
            }
            proof {
                assert(staves@ == before + commit(l@, start as int, i + 1));
                assert(staves_from(l@, med, i as int, start as int) == commit(l@, start as int, i + 1)
                    + staves_from(l@, med, i + 1, i + 1));
                assert(before + (commit(l@, start as int, i + 1) + staves_from(l@, med, i + 1, i + 1))
                    =~= staves@ + staves_from(l@, med, i + 1, i + 1));
            }
            start = i + 1;
        }
        i += 1;
    }
    let c = commit_group(l, start, l.len());
    let ghost before = staves@;
    match c {
        Some(st) => {
            staves.push(st);
        },
        None => {},
    }
    proof {
        assert(staves_from(l@, med, i as int, start as int) == commit(l@, start as int, l.len() as int));
        assert(staves@ =~= before + commit(l@, start as int, l.len() as int));
    }
    staves
}

/// The staves of `staves_from` lie in order: each lies within the lines from
/// `start` on, its top line above its bottom line, and each begins below the
/// one before it.
proof fn lemma_staves_from_ordered(l: Seq<u64>, med: u64, i: int, start: int)
    requires
        positions_ok(l),
        0 <= start <= i,
        start < l.len(),
    ensures
        forall|k: int|
            0 <= k < staves_from(l, med, i, start).len() ==> {
                let st = #[trigger] staves_from(l, med, i, start)[k];
                &&& l[start] <= st.top < st.bottom
                &&& st.bottom - st.top >= 6 * (st.line_count - 1)
                &&& 4 <= st.line_count <= 6
                &&& st.bottom < 0x4_0000_0000
                &&& st.bottom <= l[l.len() - 1]
            },
        forall|k: int, k2: int|
            0 <= k < k2 < staves_from(l, med, i, start).len() ==> (#[trigger] staves_from(
                l,
                med,
                i,
                start,
            )[k]).top < (#[trigger] staves_from(l, med, i, start)[k2]).top,
    decreases l.len() - i,
{
    let r = staves_from(l, med, i, start);
    if i >= l.len() - 1 {
        assert(r == commit(l, start, l.len() as int));
        lemma_commit_ordered(l, start, l.len() as int);
    } else if is_break(l, med, i) {
        lemma_staves_from_ordered(l, med, i + 1, i + 1);
        lemma_commit_ordered(l, start, i + 1);
        let first = commit(l, start, i + 1);
        let rest = staves_from(l, med, i + 1, i + 1);
        assert(r == first + rest);
        assert forall|k: int| 0 <= k < r.len() implies {
            let st = #[trigger] r[k];
            &&& l[start] <= st.top < st.bottom
            &&& st.bottom - st.top >= 6 * (st.line_count - 1)
            &&& 4 <= st.line_count <= 6
            &&& st.bottom < 0x4_0000_0000
                &&& st.bottom <= l[l.len() - 1]
        } by {
            if k >= first.len() {
                assert(r[k] == rest[k - first.len()]);
                assert(l[start] < l[i + 1]);
            } else {
                assert(r[k] == first[k]);
            }
        }
        assert forall|k: int, k2: int| 0 <= k < k2 < r.len() implies (#[trigger] r[k]).top < (
        #[trigger] r[k2]).top by {
            if k2 >= first.len() {
                assert(r[k2] == rest[k2 - first.len()]);
                assert(rest[k2 - first.len()].top >= l[i + 1]);
                if k < first.len() {
                    assert(r[k] == first[k]);
                    assert(first[k].top == l[start]);
                    assert(l[start] < l[i + 1]);
                } else {
                    assert(r[k] == rest[k - first.len()]);
                }
            } else {
                assert(first.len() <= 1);
            }
        }
    } else {
        lemma_staves_from_ordered(l, med, i + 1, start);
        assert(r == staves_from(l, med, i + 1, start));
    }
}

proof fn lemma_commit_ordered(l: Seq<u64>, a: int, b: int)
    requires
        positions_ok(l),
        0 <= a < b <= l.len(),
    ensures
        commit(l, a, b).len() <= 1,
        forall|k: int|
            0 <= k < commit(l, a, b).len() ==> {
                let st = #[trigger] commit(l, a, b)[k];
                &&& st.top == l[a]
                &&& l[a] <= st.top < st.bottom
                &&& st.bottom - st.top >= 6 * (st.line_count - 1)
                &&& 4 <= st.line_count <= 6
                &&& st.bottom < 0x4_0000_0000
                &&& st.bottom <= l[l.len() - 1]
            },
{
    if group_accepted(l, a, b) {
        assert(l[a] < l[b - 1]);
        assert(l[b - 1] <= l[l.len() - 1]);
    }
}

/// A stave with four or six lines is a tablature stave (five-line staves
/// carry standard notation).
pub open spec fn is_tab_stave(st: Stave) -> bool {
    st.line_count == 4 || st.line_count == 6
}

pub open spec fn tab_staves(staves: Seq<Stave>) -> Seq<Stave> {
    staves.filter(|st: Stave| is_tab_stave(st))
}

/// Staves whose tops strictly increase, each with its top above its bottom
/// and all below `2^34` half pixels.
pub open spec fn staves_ordered(st: Seq<Stave>) -> bool {
    &&& forall|k: int|
        0 <= k < st.len() ==> {
            let s = #[trigger] st[k];
            &&& s.top < s.bottom < 0x4_0000_0000
            &&& 4 <= s.line_count <= 6
        }
    &&& forall|k: int, k2: int| 0 <= k < k2 < st.len() ==> (#[trigger] st[k]).top < (#[trigger] st[k2]).top
}

proof fn lemma_filter_keeps_order(st: Seq<Stave>, p: spec_fn(Stave) -> bool)
    requires
        staves_ordered(st),
    ensures
        staves_ordered(st.filter(p)),
    decreases st.len(),
{
    broadcast use vstd::seq_lib::group_filter_ensures;

    reveal(Seq::filter);
    if st.len() > 0 {
        let init = st.drop_last();
        assert(staves_ordered(init));
        lemma_filter_keeps_order(init, p);
        let fi = init.filter(p);
        if p(st.last()) {
            assert forall|k: int| 0 <= k < fi.len() implies (#[trigger] fi[k]).top < st.last().top by {
                assert(fi.contains(fi[k]));
                init.lemma_filter_contains_rev(p, fi[k]);
                assert(init.contains(fi[k]));
                let j = choose|j: int| 0 <= j < init.len() && init[j] == fi[k];
                assert(st[j] == init[j]);
            }
            assert(st.filter(p) == fi.push(st.last()));
        } else {
            assert(st.filter(p) == fi);
        }
    }
}

/// The distances between the tops of consecutive staves.
pub open spec fn top_gaps(st: Seq<Stave>) -> Seq<u64> {
    Seq::new((st.len() - 1) as nat, |i: int| (st[i + 1].top - st[i].top) as u64)
}

/// How far above a system's first string line its scroll anchor sits when
/// no notation stave lies above it, in 1/600 pixel: 55% of the median
/// distance between systems; with a single system, 55% of twelve line
/// spacings; with none, 55% of 60 pixels.
pub open spec fn above_offset(tab: Seq<Stave>) -> int {
    if tab.len() >= 2 {
        165 * median(top_gaps(tab))
    } else if tab.len() == 1 {
        (1980int / (tab[0].line_count - 1)) * (tab[0].bottom - tab[0].top)
    } else {
        19800
    }
}

/// Stave `n` is a notation stave just above the tab stave `s`: it has five
/// lines, ends above `s`, and less than three line spacings of `s` separate
/// them.
pub open spec fn notation_for(n: Stave, s: Stave) -> bool {
    &&& n.line_count == 5
    &&& n.bottom < s.top
    &&& (s.top - n.bottom) * (s.line_count - 1) < 3 * (s.bottom - s.top)
}

/// The last of `staves[0..k)` that is a notation stave just above `s`.
pub open spec fn notation_above(staves: Seq<Stave>, s: Stave, k: int) -> Option<Stave>
    decreases k,
{
    if k <= 0 {
        None
    } else if notation_for(staves[k - 1], s) {
        Some(staves[k - 1])
    } else {
        notation_above(staves, s, k - 1)
    }
}

pub open spec fn clamp_low(x: int) -> int {
    if x < 0 { 0 } else { x }
}

/// Where the viewport top goes for tab stave `s`, in 1/600 pixel: two line
/// spacings above the notation stave over it if there is one, else `offset`
/// above its first string line; never above the page.
pub open spec fn anchor_units(staves: Seq<Stave>, s: Stave, offset: int) -> int {
    match notation_above(staves, s, staves.len() as int) {
        Some(n) => clamp_low(300 * n.top - (600int / (s.line_count - 1)) * (s.bottom - s.top)),
        None => clamp_low(300 * s.top - offset),
    }
}

/// A position on a page as the fraction `num / den` of the page height.
#[derive(Clone, Copy, Debug, PartialEq, Eq, Structural)]
pub struct PageFraction {
    pub num: u64,
    pub den: u64,
}

/// One detected tablature system.
#[derive(Clone, Copy, Debug, PartialEq, Eq, Structural)]
pub struct TabSystem {
    /// Where to scroll so that the chord names above the system show at the
    /// top of the viewport.
    pub scroll_anchor: PageFraction,
    /// The middle of the system's string lines.
    pub string_center: PageFraction,
    /// The number of bars (measures) in the system.
    pub bar_count: u64,
}

/// The tablature staves among `staves`, in order.
fn select_tab_staves(staves: &Vec<Stave>) -> (tab: Vec<Stave>)
    ensures
        tab@ == tab_staves(staves@),
{
    let mut tab: Vec<Stave> = Vec::new();
    let mut i: usize = 0;
    while i < staves.len()
        invariant
            i <= staves.len(),
            tab@ == tab_staves(staves@.take(i as int)),
        decreases staves.len() - i,
    {
        let st = staves[i];
        proof {
            assert(staves@.take(i + 1) =~= staves@.take(i as int).push(st));
            staves@.take(i as int).lemma_filter_push(st, |s: Stave| is_tab_stave(s));
        }
        if st.line_count == 4 || st.line_count == 6 {
            tab.push(st);
        }
        i += 1;
    }
    assert(staves@.take(staves.len() as int) =~= staves@);
    tab
}

/// The distances between the tops of consecutive staves of `tab`.
fn top_gaps_of(tab: &Vec<Stave>) -> (g: Vec<u64>)
    requires
        tab.len() >= 1,
        staves_ordered(tab@),
    ensures
        g@ == top_gaps(tab@),
{
    let mut g: Vec<u64> = Vec::new();
    let mut i: usize = 0;
    while i + 1 < tab.len()
        invariant
            i + 1 <= tab.len(),
            staves_ordered(tab@),
            g@ == top_gaps(tab@).take(i as int),
        decreases tab.len() - i,
    {
        assert(tab@[i as int].top < tab@[i + 1].top);
        g.push(tab[i + 1].top - tab[i].top);
        assert(top_gaps(tab@).take(i as int).push((tab@[i + 1].top - tab@[i as int].top) as u64)
            =~= top_gaps(tab@).take(i + 1));
        i += 1;
    }
    assert(top_gaps(tab@).take(i as int) =~= top_gaps(tab@));
    g
}

/// The offset of `above_offset` for the tab staves `tab`, in 1/600 pixel.
fn above_offset_of(tab: &Vec<Stave>) -> (off: u64)
    requires
        staves_ordered(tab@),
    ensures
        off == above_offset(tab@),
        off <= 0x1_0000_0000_0000,
{
    if tab.len() >= 2 {
        let g = top_gaps_of(tab);
        let m = median_of(&g);
        proof {
            lemma_ascending_total();
            g@.lemma_sort_by_ensures(ascending());
            broadcast use vstd::seq_lib::group_to_multiset_ensures;
            assert(g@.sort_by(ascending()).to_multiset().len() == g@.sort_by(ascending()).len());
            assert(g@.to_multiset().len() == g@.len());
            assert(g@.sort_by(ascending()).len() == g@.len());
            let i = (g@.len() / 2) as int;
            assert(g@.sort_by(ascending()).contains(g@.sort_by(ascending())[i]));
            assert(g@.contains(m));
            let j = choose|j: int| 0 <= j < g@.len() && g@[j] == m;
            assert(tab@[j + 1].top < 0x4_0000_0000);
        }
        165 * m
    } else if tab.len() == 1 {
        let m = tab[0].line_count - 1;
        assert(1980u64 / m <= 660) by (nonlinear_arith)
            requires
                m >= 3,
        ;
        let k = 1980 / m;
        let d = tab[0].bottom - tab[0].top;
        assert(k * d <= 660 * 0x4_0000_0000) by (nonlinear_arith)
            requires
                k <= 660,
                d <= 0x4_0000_0000,
        ;
        k * d
    } else {
        19800
    }
}

/// The last of `staves` that is a notation stave just above `s`.
fn find_notation_above(staves: &Vec<Stave>, s: &Stave) -> (r: Option<Stave>)
    requires
        staves_ordered(staves@),
        s.top < s.bottom < 0x4_0000_0000,
        4 <= s.line_count <= 6,
    ensures
        r == notation_above(staves@, *s, staves.len() as int),
        r matches Some(n) ==> n.top < n.bottom < 0x4_0000_0000,
{
    let mut k = staves.len();
    while k > 0
        invariant
            k <= staves.len(),
            staves_ordered(staves@),
            s.top < s.bottom < 0x4_0000_0000,
            4 <= s.line_count <= 6,
            notation_above(staves@, *s, staves.len() as int) == notation_above(staves@, *s, k as int),
        decreases k,
    {
        let n = staves[k - 1];
        assert(staves@[k - 1] == n);
        if n.line_count == 5 && n.bottom < s.top {
            let d = s.top - n.bottom;
            let m = s.line_count - 1;
            assert(d * m <= 5 * 0x4_0000_0000) by (nonlinear_arith)
                requires
                    d <= 0x4_0000_0000,
                    m <= 5,
            ;
            if d * m < 3 * (s.bottom - s.top) {
                return Some(n);
            }
        }
        k -= 1;
    }
    None
}

/// The scroll anchor of tab stave `s`, in 1/600 pixel.
fn anchor_of(staves: &Vec<Stave>, s: &Stave, offset: u64) -> (a: u64)
    requires
        staves_ordered(staves@),
        s.top < s.bottom < 0x4_0000_0000,
        s.line_count == 4 || s.line_count == 6,
        offset <= 0x1_0000_0000_0000,
    ensures
        a == anchor_units(staves@, *s, offset as int),
{
    let m = s.line_count - 1;
    assert(600u64 / m <= 200) by (nonlinear_arith)
        requires
            m >= 3,
    ;
    let k = 600 / m;
    let d = s.bottom - s.top;
    assert(k * d <= 200 * 0x4_0000_0000) by (nonlinear_arith)
        requires
            k <= 200,
            d <= 0x4_0000_0000,
    ;
    let lift = k * d;
    match find_notation_above(staves, s) {
        Some(n) => {
            let base = 300 * n.top;
            if base >= lift { base - lift } else { 0 }
        },
        None => {
            let base = 300 * s.top;
            if base >= offset { base - offset } else { 0 }
        },
    }
}

/// `num / den` rounded to the nearest integer, halves rounded up.
pub open spec fn round_half_up(num: int, den: int) -> int {
    (2 * num + den) / (2 * den)
}

/// The rows sampled for barlines in stave `s`: the row nearest the middle of
/// each gap between two consecutive string lines, kept when it lies on the
/// page.
pub open spec fn probe_rows(s: Stave, height: int) -> Seq<u64> {
    let m = s.line_count - 1;
    Seq::new(
        m as nat,
        |i: int| round_half_up(2 * m * s.top + (2 * i + 1) * (s.bottom - s.top), 4 * m) as u64,
    ).filter(|y: u64| y < height)
}

/// How many of the rows `ys[0..j)` are dark in column `x`.
pub open spec fn hits_upto(img: GrayView, ys: Seq<u64>, x: int, j: int) -> nat
    decreases j,
{
    if j <= 0 {
        0
    } else {
        hits_upto(img, ys, x, j - 1) + if is_dark(img, x, ys[j - 1] as int, DARK_THRESHOLD) {
            1nat
        } else {
            0nat
        }
    }
}

/// Column `x` crosses the stave as a barline: all sampled gaps but at most
/// one are dark there (and at least one is).
pub open spec fn is_barline(img: GrayView, ys: Seq<u64>, x: int) -> bool {
    let need = if ys.len() >= 2 { ys.len() - 1 } else { 1 };
    hits_upto(img, ys, x, ys.len() as int) >= need
}

/// The number of barlines met among columns `[x0, x)`: the columns that are
/// barline columns while the column before them (within the range) is not.
pub open spec fn barlines_upto(img: GrayView, ys: Seq<u64>, x0: int, x: int) -> nat
    decreases x - x0,
{
    if x <= x0 {
        0
    } else {
        barlines_upto(img, ys, x0, x - 1) + if is_barline(img, ys, x - 1) && (x - 1 == x0
            || !is_barline(img, ys, x - 2)) {
            1nat
        } else {
            0nat
        }
    }
}

proof fn lemma_barlines_bounded(img: GrayView, ys: Seq<u64>, x0: int, x: int)
    ensures
        barlines_upto(img, ys, x0, x) <= if x > x0 { x - x0 } else { 0 },
    decreases x - x0,
{
    if x > x0 {
        lemma_barlines_bounded(img, ys, x0, x - 1);
    }
}

/// The number of bars in stave `s`: one fewer than the barlines met between
/// 2% and 98% of the page width (the stave's two edges are barlines too), and
/// at least one.
pub open spec fn bar_count(img: GrayView, s: Stave) -> u64 {
    let ys = probe_rows(s, img.height as int);
    if s.line_count < 2 || ys.len() == 0 {
        1
    } else {
        let n = barlines_upto(img, ys, img.width as int / 50, (49 * img.width as int) / 50);
        if n >= 2 { (n - 1) as u64 } else { 1 }
    }
}

/// The rows of `probe_rows(s, height)`.
fn probe_rows_of(s: &Stave, height: u32) -> (ys: Vec<u64>)
    requires
        2 <= s.line_count <= 6,
        s.top <= s.bottom < 0x4_0000_0000,
    ensures
        ys@ == probe_rows(*s, height as int),
{
    let m = s.line_count - 1;
    let d = s.bottom - s.top;
    let ghost all = Seq::new(
        m as nat,
        |i: int| round_half_up(2 * m * s.top + (2 * i + 1) * (s.bottom - s.top), 4 * m) as u64,
    );
    let mut ys: Vec<u64> = Vec::new();
    let mut i: u64 = 0;
    while i < m
        invariant
            i <= m == s.line_count - 1,
            1 <= m <= 5,
            d == s.bottom - s.top,
            s.top <= s.bottom < 0x4_0000_0000,
            all.len() == m,
            forall|k: int| 0 <= k < m ==> #[trigger] all[k] == round_half_up(2 * m * s.top + (2 * k + 1) * (s.bottom - s.top), 4 * m) as u64,
            ys@ == all.take(i as int).filter(|y: u64| y < height),
        decreases m - i,
    {
        assert(2 * m * s.top <= 10 * 0x4_0000_0000) by (nonlinear_arith)
            requires
                m <= 5,
                s.top <= 0x4_0000_0000,
        ;
        assert((2 * i + 1) * d <= 11 * 0x4_0000_0000) by (nonlinear_arith)
            requires
                i <= 5,
                d <= 0x4_0000_0000,
        ;
        let num = 2 * m * s.top + (2 * i + 1) * d;
        let den = 4 * m;
        let y = (2 * num + den) / (2 * den);
        proof {
            assert(all.take(i + 1) =~= all.take(i as int).push(y));
            all.take(i as int).lemma_filter_push(y, |y: u64| y < height);
        }
        if y < height as u64 {
            ys.push(y);
        }
        i += 1;
    }
    assert(all.take(m as int) =~= all);
    ys
}

/// Whether column `x` is a barline column for the rows `ys`.
fn barline_at(img: &GrayImage, ys: &Vec<u64>, x: u32) -> (b: bool)
    requires
        img.wf(),
        x < img.width,
        forall|k: int| 0 <= k < ys.len() ==> #[trigger] ys@[k] < img.height,
    ensures
        b == is_barline(img@, ys@, x as int),
{
    let mut hits: u64 = 0;
    let mut j: usize = 0;
    while j < ys.len()
        invariant
            img.wf(),
            x < img.width,
            j <= ys.len(),
            forall|k: int| 0 <= k < ys.len() ==> #[trigger] ys@[k] < img.height,
            hits == hits_upto(img@, ys@, x as int, j as int),
            hits <= j,
        decreases ys.len() - j,
    {
        if img.get_pixel(x, ys[j] as u32) < DARK_THRESHOLD {
            hits += 1;
        }
        j += 1;
    }
    let need: u64 = if ys.len() >= 2 { (ys.len() - 1) as u64 } else { 1 };
    hits >= need
}

/// The number of bars in stave `s` (see `bar_count`).
pub fn count_bars_in_stave(img: &GrayImage, s: &Stave) -> (n: u64)
    requires
        img.wf(),
        2 <= s.line_count <= 6,
        s.top <= s.bottom < 0x4_0000_0000,
    ensures
        n == bar_count(img@, *s),
{
    let ys = probe_rows_of(s, img.height);
    if ys.len() == 0 {
        return 1;
    }
    proof {
        assert forall|k: int| 0 <= k < ys.len() implies #[trigger] ys@[k] < img.height by {
            let p = |y: u64| y < img.height as int;
            let all = Seq::new(
                (s.line_count - 1) as nat,
                |i: int| round_half_up(2 * (s.line_count - 1) * s.top + (2 * i + 1) * (s.bottom - s.top), 4 * (s.line_count - 1)) as u64,
            );
            all.lemma_filter_pred(p, k);
        }
    }
    let x0 = ((img.width as u64) / 50) as u32;
    let x1 = ((49 * (img.width as u64)) / 50) as u32;
    let mut count: u64 = 0;
    let mut in_barline = false;
    let mut x = x0;
    while x < x1
        invariant
            img.wf(),
            x0 == img.width / 50,
            x1 == (49 * img.width) / 50,
            x0 <= x <= x1 <= img.width,
            forall|k: int| 0 <= k < ys.len() ==> #[trigger] ys@[k] < img.height,
            count == barlines_upto(img@, ys@, x0 as int, x as int),
            count <= x - x0,
            in_barline == (x > x0 && is_barline(img@, ys@, x - 1)),
        decreases x1 - x,
    {
        let is_bl = barline_at(img, &ys, x);
        if is_bl && !in_barline {
            count += 1;
        }
        in_barline = is_bl;
        x += 1;
    }
    if count >= 2 { count - 1 } else { 1 }
}

/// Whether each row of the page is a string line, judged over the middle 80%
/// of the width (columns `[width / 10, 9 * width / 10)`).
pub open spec fn line_rows(img: GrayView) -> Seq<bool> {
    let x0 = img.width / 10;
    let x1 = (9 * img.width) / 10;
    Seq::new(
        img.height as nat,
        |y: int| row_is_line(img, y, x0 as int, x1 as int, DARK_THRESHOLD, x1 - x0),
    )
}

/// The string lines of the page, in half pixels from the top.
pub open spec fn page_lines(img: GrayView) -> Seq<u64> {
    line_centers(line_rows(img))
}

/// The system that tab stave `s` gives.
pub open spec fn system_of(img: GrayView, staves: Seq<Stave>, s: Stave, offset: int) -> TabSystem {
    TabSystem {
        scroll_anchor: PageFraction {
            num: anchor_units(staves, s, offset) as u64,
            den: (600 * img.height) as u64,
        },
        string_center: PageFraction { num: (s.top + s.bottom) as u64, den: (4 * img.height) as u64 },
        bar_count: bar_count(img, s),
    }
}

/// The tablature systems of the page, top to bottom: none with fewer than
/// four string lines, else one for each tab stave.
pub open spec fn page_systems(img: GrayView) -> Seq<TabSystem> {
    let l = page_lines(img);
    if l.len() < 4 {
        seq![]
    } else {
        let staves = staves_of(l);
        let tab = tab_staves(staves);
        tab.map_values(|s: Stave| system_of(img, staves, s, above_offset(tab)))
    }
}

/// The string lines of the page as fractions of its height.
pub open spec fn line_fractions(img: GrayView) -> Seq<PageFraction> {
    page_lines(img).map_values(|y: u64| PageFraction { num: y, den: (2 * img.height) as u64 })
}

proof fn lemma_page_lines_ok(img: GrayView)
    ensures
        positions_ok(page_lines(img)),
{
    let rows = line_rows(img);
    lemma_runs_upto(rows, rows.len() as int);
    let r = runs_upto(rows, rows.len() as int);
    let l = page_lines(img);
    assert forall|i: int, j: int| 0 <= i < j < l.len() implies l[i] < l[j] by {
        lemma_runs_increase(r, rows.len() as int, i, j);
    }
}

proof fn lemma_runs_increase(r: Seq<(int, int)>, n: int, i: int, j: int)
    requires
        runs_ordered(r, n),
        0 <= i < j < r.len(),
    ensures
        r[i].1 < r[j].0,
    decreases j - i,
{
    if j > i + 1 {
        lemma_runs_increase(r, n, i, j - 1);
        assert(r[j - 1].1 < r[j].0);
        assert(r[j - 1].0 < r[j - 1].1);
    }
}

/// The gaps between consecutive positions of `l`.
fn gaps_between(l: &Vec<u64>) -> (g: Vec<u64>)
    requires
        l.len() >= 1,
        positions_ok(l@),
    ensures
        g@ == gaps_of(l@),
{
    let mut g: Vec<u64> = Vec::new();
    let mut i: usize = 0;
    while i + 1 < l.len()
        invariant
            i + 1 <= l.len(),
            positions_ok(l@),
            g@ == gaps_of(l@).take(i as int),
        decreases l.len() - i,
    {
        assert(l@[i as int] < l@[i + 1]);
        g.push(l[i + 1] - l[i]);
        assert(gaps_of(l@).take(i as int).push((l@[i + 1] - l@[i as int]) as u64) =~= gaps_of(l@).take(i + 1));
        i += 1;
    }
    assert(gaps_of(l@).take(i as int) =~= gaps_of(l@));
    g
}

/// The tablature systems of a page image, and (when `debug` is set) its
/// string lines; `None` for an empty image.
pub fn detect_page(img: &GrayImage, debug: bool) -> (r: Option<(Vec<TabSystem>, Vec<PageFraction>)>)
    requires
        img.wf(),
    ensures
        r is None <==> (img.width == 0 || img.height == 0),
        r matches Some(p) ==> p.0@ == page_systems(img@),
        r matches Some(p) ==> p.1@ == if debug { line_fractions(img@) } else { seq![] },
{
    let width = img.width;
    let height = img.height;
    if width == 0 || height == 0 {
        return None;
    }
    let x0 = ((width as u64) / 10) as u32;
    let x1 = ((9 * (width as u64)) / 10) as u32;
    let inner_width = (x1 - x0) as usize;
    let mut rows: Vec<bool> = Vec::new();
    let mut y: u32 = 0;
    while y < height
        invariant
            img.wf(),
            height == img.height,
            width == img.width,
            x0 == width / 10,
            x1 == (9 * width) / 10,
            inner_width == x1 - x0,
            y <= height,
            rows@ == line_rows(img@).take(y as int),
        decreases height - y,
    {
        let b = row_is_string_line(img, y, x0, x1, DARK_THRESHOLD, inner_width);
        rows.push(b);
        assert(line_rows(img@).take(y as int).push(b) =~= line_rows(img@).take(y + 1));
        y += 1;
    }
    assert(line_rows(img@).take(height as int) =~= line_rows(img@));
    let lines = collapse_lines(&rows);
    proof {
        lemma_page_lines_ok(img@);
    }
    let mut fractions: Vec<PageFraction> = Vec::new();
    if debug {
        let mut k: usize = 0;
        while k < lines.len()
            invariant
                k <= lines.len(),
                lines@ == page_lines(img@),
                height == img.height,
                fractions@ == line_fractions(img@).take(k as int),
            decreases lines.len() - k,
        {
            fractions.push(PageFraction { num: lines[k], den: 2 * (height as u64) });
            assert(line_fractions(img@).take(k as int).push(PageFraction { num: lines@[k as int], den: (2 * height) as u64 }) =~= line_fractions(img@).take(k + 1));
            k += 1;
        }
        assert(line_fractions(img@).take(k as int) =~= line_fractions(img@));
    }
    if lines.len() < 4 {
        return Some((Vec::new(), fractions));
    }
    let gaps = gaps_between(&lines);
    let med = median_of(&gaps);
    proof {
        lemma_ascending_total();
        gaps@.lemma_sort_by_ensures(ascending());
        broadcast use vstd::seq_lib::group_to_multiset_ensures;
        assert(gaps@.sort_by(ascending()).to_multiset().len() == gaps@.sort_by(ascending()).len());
        let i = (gaps@.len() / 2) as int;
        assert(gaps@.sort_by(ascending()).contains(gaps@.sort_by(ascending())[i]));
        assert(gaps@.contains(med));
        let j = choose|j: int| 0 <= j < gaps@.len() && gaps@[j] == med;
        assert(lines@[j + 1] < 0x4_0000_0000);
    }
    let staves = split_staves(&lines, med);
    proof {
        lemma_staves_from_ordered(lines@, med, 0, 0);
        assert(staves_ordered(staves@));
    }
    let tab = select_tab_staves(&staves);
    proof {
        lemma_filter_keeps_order(staves@, |st: Stave| is_tab_stave(st));
    }
    let offset = above_offset_of(&tab);
    let ghost spec_systems = page_systems(img@);
    let mut systems: Vec<TabSystem> = Vec::new();
    let mut k: usize = 0;
    while k < tab.len()
        invariant
            img.wf(),
            height == img.height,
            k <= tab.len(),
            staves_ordered(staves@),
            staves_ordered(tab@),
            staves@ == staves_of(page_lines(img@)),
            tab@ == tab_staves(staves@),
            offset == above_offset(tab@),
            offset <= 0x1_0000_0000_0000,
            page_lines(img@).len() >= 4,
            spec_systems == page_systems(img@),
            systems@ == spec_systems.take(k as int),
        decreases tab.len() - k,
    {
        let s = tab[k];
        assert(tab@[k as int] == s);
        let anchor = anchor_of(&staves, &s, offset);
        let bars = count_bars_in_stave(img, &s);
        let sys = TabSystem {
            scroll_anchor: PageFraction { num: anchor, den: 600 * (height as u64) },
            string_center: PageFraction { num: s.top + s.bottom, den: 4 * (height as u64) },
            bar_count: bars,
        };
        systems.push(sys);
        assert(spec_systems.len() == tab@.len());
        assert(spec_systems[k as int] == system_of(img@, staves@, s, offset as int));
        assert(spec_systems.take(k as int).push(sys) =~= spec_systems.take(k + 1));
        k += 1;
    }
    assert(spec_systems.len() == tab@.len());
    assert(spec_systems.take(k as int) =~= spec_systems);
    Some((systems, fractions))
}

/// What `image::load_from_memory` followed by `to_luma8` gives for the bytes
/// of an encoded image: its width, height and 8-bit grayscale samples, or
/// `None` when the bytes do not decode.
pub uninterp spec fn decoded_gray(bytes: Seq<u8>) -> Option<(u32, u32, Seq<u8>)>;

/// Decodes an encoded image (`image::load_from_memory`, format guessed from
/// the bytes) and converts it to 8-bit grayscale (`DynamicImage::to_luma8`).
/// The result is named by `decoded_gray`; the buffer that `into_raw` hands
/// back holds at least `width * height` samples, as every `ImageBuffer` does.
#[verifier::external_body]
fn decode_gray(bytes: &[u8]) -> (r: Option<(u32, u32, Vec<u8>)>)
    ensures
        r is None <==> decoded_gray(bytes@) is None,
        r matches Some(t) ==> decoded_gray(bytes@) == Some((t.0, t.1, t.2@)),
        r matches Some(t) ==> t.2@.len() >= t.0 * t.1,
{
    match image::load_from_memory(bytes) {
        Ok(img) => {
            let gray = img.to_luma8();
            let (w, h) = gray.dimensions();
            Some((w, h, gray.into_raw()))
        },
        Err(_) => None,
    }
}

/// The detection of `page_systems` for the decoded page `png`: nothing when
/// it does not decode or is empty.
pub open spec fn png_systems(png: Seq<u8>) -> Seq<TabSystem> {
    match decoded_gray(png) {
        Some(t) => if t.0 == 0 || t.1 == 0 {
            seq![]
        } else {
            page_systems(GrayView { width: t.0, height: t.1, pixels: t.2 })
        },
        None => seq![],
    }
}

/// The string lines of the decoded page `png` as fractions of its height.
pub open spec fn png_lines(png: Seq<u8>) -> Seq<PageFraction> {
    match decoded_gray(png) {
        Some(t) => if t.0 == 0 || t.1 == 0 {
            seq![]
        } else {
            line_fractions(GrayView { width: t.0, height: t.1, pixels: t.2 })
        },
        None => seq![],
    }
}

fn detect_png(png: &[u8], debug: bool) -> (r: (Vec<TabSystem>, Vec<PageFraction>))
    ensures
        r.0@ == png_systems(png@),
        r.1@ == if debug { png_lines(png@) } else { seq![] },
{
    match decode_gray(png) {
        None => (Vec::new(), Vec::new()),
        Some((w, h, pixels)) => {
            let img = GrayImage { width: w, height: h, pixels };
            match detect_page(&img, debug) {
                Some(found) => found,
                None => (Vec::new(), Vec::new()),
            }
        },
    }
}

/// The scroll anchors of the systems.
fn anchors_of(systems: &Vec<TabSystem>) -> (a: Vec<PageFraction>)
    ensures
        a@ == systems@.map_values(|s: TabSystem| s.scroll_anchor),
{
    let mut a: Vec<PageFraction> = Vec::new();
    let mut i: usize = 0;
    while i < systems.len()
        invariant
            i <= systems.len(),
            a@ == systems@.take(i as int).map_values(|s: TabSystem| s.scroll_anchor),
        decreases systems.len() - i,
    {
        a.push(systems[i].scroll_anchor);
        assert(systems@.take(i as int).map_values(|s: TabSystem| s.scroll_anchor).push(systems@[i as int].scroll_anchor)
            =~= systems@.take(i + 1).map_values(|s: TabSystem| s.scroll_anchor));
        i += 1;
    }
    assert(systems@.take(i as int) =~= systems@);
    a
}

/// The tablature systems on a rendered page (PNG bytes), top to bottom.
pub fn detect_tab_systems(png: &[u8]) -> (r: Vec<TabSystem>)
    ensures
        r@ == png_systems(png@),
{
    detect_png(png, false).0
}

/// The scroll anchors of the systems on a rendered page, top to bottom.
pub fn detect_tab_rows(png: &[u8]) -> (r: Vec<PageFraction>)
    ensures
        r@ == png_systems(png@).map_values(|s: TabSystem| s.scroll_anchor),
{
    let systems = detect_png(png, false).0;
    anchors_of(&systems)
}

/// The scroll anchors of the systems on a rendered page, and every string
/// line the page holds, each as a fraction of the page height.
pub fn detect_tab_rows_debug(png: &[u8]) -> (r: (Vec<PageFraction>, Vec<PageFraction>))
    ensures
        r.0@ == png_systems(png@).map_values(|s: TabSystem| s.scroll_anchor),
        r.1@ == png_lines(png@),
{
    let (systems, lines) = detect_png(png, true);
    (anchors_of(&systems), lines)
}

proof fn lemma_notation_above_member(staves: Seq<Stave>, s: Stave, k: int)
    requires
        k <= staves.len(),
    ensures
        notation_above(staves, s, k) matches Some(n) ==> exists|j: int|
            0 <= j < k && #[trigger] staves[j] == n && notation_for(n, s),
        (forall|j: int| 0 <= j < k ==> (#[trigger] staves[j]).line_count != 5) ==> notation_above(
            staves,
            s,
            k,
        ) is None,
    decreases k,
{
    if k > 0 {
        lemma_notation_above_member(staves, s, k - 1);
        if notation_for(staves[k - 1], s) {
            assert(staves[k - 1] == staves[k - 1]);
        }
    }
}

/// The page's string lines lie on the page: below `2 * height` half pixels
/// and below its top edge.
proof fn lemma_page_lines_on_page(img: GrayView)
    ensures
        forall|k: int| 0 <= k < page_lines(img).len() ==> 0 < #[trigger] page_lines(img)[k] < 2 * img.height,
{
    let rows = line_rows(img);
    lemma_runs_upto(rows, rows.len() as int);
    let r = runs_upto(rows, rows.len() as int);
    assert forall|k: int| 0 <= k < page_lines(img).len() implies 0 < #[trigger] page_lines(img)[k] < 2
        * img.height by {
        assert(0 <= r[k].0 < r[k].1 <= img.height);
    }
}

/// The string lines that the debug detection reports for a page lie
/// strictly inside it and come top to bottom: each is a fraction strictly
/// between 0 and 1 of the page height, all over the same denominator, and
/// they strictly increase.
pub proof fn lemma_png_lines_inside(png: Seq<u8>)
    ensures
        forall|k: int|
            0 <= k < png_lines(png).len() ==> 0 < (#[trigger] png_lines(png)[k]).num < png_lines(png)[k].den,
        forall|i: int, j: int|
            0 <= i < j < png_lines(png).len() ==> (#[trigger] png_lines(png)[i]).den == (
            #[trigger] png_lines(png)[j]).den && png_lines(png)[i].num < png_lines(png)[j].num,
{
    match decoded_gray(png) {
        Some(t) => {
            if t.0 != 0 && t.1 != 0 {
                let img = GrayView { width: t.0, height: t.1, pixels: t.2 };
                lemma_page_lines_ok(img);
                lemma_page_lines_on_page(img);
                assert(png_lines(png) == line_fractions(img));
            }
        },
        None => {},
    }
}

/// Facts on the tab staves of a page that has at least four string lines.
proof fn lemma_page_tab_staves(img: GrayView)
    requires
        page_lines(img).len() >= 4,
    ensures
        staves_ordered(staves_of(page_lines(img))),
        staves_ordered(tab_staves(staves_of(page_lines(img)))),
        forall|k: int|
            0 <= k < tab_staves(staves_of(page_lines(img))).len() ==> {
                let s = #[trigger] tab_staves(staves_of(page_lines(img)))[k];
                &&& s.bottom < 2 * img.height
                &&& is_tab_stave(s)
            },
        forall|k: int|
            0 <= k < staves_of(page_lines(img)).len() ==> (#[trigger] staves_of(
                page_lines(img),
            )[k]).bottom < 2 * img.height,
{
    broadcast use vstd::seq_lib::group_filter_ensures;

    let l = page_lines(img);
    lemma_page_lines_ok(img);
    lemma_page_lines_on_page(img);
    let med = median(gaps_of(l));
    lemma_staves_from_ordered(l, med, 0, 0);
    let st = staves_of(l);
    assert(staves_ordered(st));
    assert forall|k: int| 0 <= k < st.len() implies (#[trigger] st[k]).bottom < 2 * img.height by {
        assert(st[k].bottom <= l[l.len() - 1]);
    }
    let p = |x: Stave| is_tab_stave(x);
    lemma_filter_keeps_order(st, p);
    let tab = st.filter(p);
    assert forall|k: int| 0 <= k < tab.len() implies {
        let s = #[trigger] tab[k];
        &&& s.bottom < 2 * img.height
        &&& is_tab_stave(s)
    } by {
        assert(tab.contains(tab[k]));
        st.lemma_filter_contains_rev(p, tab[k]);
        let j = choose|j: int| 0 <= j < st.len() && st[j] == tab[k];
        assert(st[j].bottom < 2 * img.height);
        st.lemma_filter_pred(p, k);
    }
}

/// Every system found on a page lies on it: its scroll anchor and string center are fractions in
/// `[0, 1)` of the page height, the string center lies strictly below the
/// scroll anchor, and the system has at least one bar.
pub proof fn lemma_systems_on_page(img: GrayView)
    ensures
        forall|k: int|
            0 <= k < page_systems(img).len() ==> {
                let s = #[trigger] page_systems(img)[k];
                &&& s.scroll_anchor.num < s.scroll_anchor.den
                &&& s.string_center.num < s.string_center.den
                &&& s.scroll_anchor.num * s.string_center.den < s.string_center.num
                    * s.scroll_anchor.den
                &&& s.bar_count >= 1
            },
{
    let l = page_lines(img);
    if l.len() >= 4 {
        lemma_page_tab_staves(img);
        let staves = staves_of(l);
        let tab = tab_staves(staves);
        let off = above_offset(tab);
        assert forall|k: int| 0 <= k < page_systems(img).len() implies {
            let s = #[trigger] page_systems(img)[k];
            &&& s.scroll_anchor.num < s.scroll_anchor.den
            &&& s.string_center.num < s.string_center.den
            &&& s.scroll_anchor.num * s.string_center.den < s.string_center.num
                * s.scroll_anchor.den
            &&& s.bar_count >= 1
        } by {
            assert(page_systems(img).len() == tab.len());
            let st = tab[k];
            assert(st.top < st.bottom < 2 * img.height);
            let h = img.height as int;
            lemma_notation_above_member(staves, st, staves.len() as int);
            let a = anchor_units(staves, st, off);
            match notation_above(staves, st, staves.len() as int) {
                Some(n) => {
                    let j = choose|j: int| 0 <= j < staves.len() && #[trigger] staves[j] == n && notation_for(n, st);
                    assert(n.top < n.bottom);
                    assert(a <= 300 * st.top);
                },
                None => {
                    assert(a <= 300 * st.top);
                },
            }
            assert(0 <= a);
            assert(a < 150 * (st.top + st.bottom));
            let sys = page_systems(img)[k];
            assert(sys == system_of(img, staves, st, off));
            assert(a * (4 * h) < (st.top + st.bottom) * (600 * h)) by (nonlinear_arith)
                requires
                    0 <= a < 150 * (st.top + st.bottom),
                    h > 0,
            ;
            assert(sys.scroll_anchor.num == a);
            assert(sys.scroll_anchor.den == 600 * h);
            assert(sys.string_center.num == st.top + st.bottom);
            assert(sys.string_center.den == 4 * h);
            lemma_barlines_bounded(img, probe_rows(st, h), img.width as int / 50, (49 * img.width as int) / 50);
            assert(sys.bar_count >= 1);
        }
    }
}

/// On a page without notation staves, the scroll anchors of its systems
/// never move up the page from one system to the next, and move strictly
/// down except where an anchor is held at the top edge of the page.
pub proof fn lemma_anchors_descend_without_notation(img: GrayView)
    requires
        page_lines(img).len() >= 4 ==> forall|k: int|
            0 <= k < staves_of(page_lines(img)).len() ==> (#[trigger] staves_of(
                page_lines(img),
            )[k]).line_count != 5,
    ensures
        forall|i: int, j: int|
            0 <= i < j < page_systems(img).len() ==> (#[trigger] page_systems(img)[i]).scroll_anchor.num
                <= (#[trigger] page_systems(img)[j]).scroll_anchor.num,
        forall|i: int, j: int|
            0 <= i < j < page_systems(img).len() && (#[trigger] page_systems(img)[i]).scroll_anchor.num
                > 0 ==> page_systems(img)[i].scroll_anchor.num < (
            #[trigger] page_systems(img)[j]).scroll_anchor.num,
        forall|i: int, j: int|
            0 <= i < j < page_systems(img).len() ==> (#[trigger] page_systems(img)[i]).scroll_anchor.den
                == (#[trigger] page_systems(img)[j]).scroll_anchor.den,
{
    let l = page_lines(img);
    if l.len() >= 4 {
        lemma_page_tab_staves(img);
        let staves = staves_of(l);
        let tab = tab_staves(staves);
        let off = above_offset(tab);
        assert forall|i: int, j: int| 0 <= i < j < page_systems(img).len() implies (
        #[trigger] page_systems(img)[i]).scroll_anchor.num <= (
        #[trigger] page_systems(img)[j]).scroll_anchor.num && (page_systems(img)[i].scroll_anchor.num
            > 0 ==> page_systems(img)[i].scroll_anchor.num < page_systems(img)[j].scroll_anchor.num)
            && page_systems(img)[i].scroll_anchor.den == page_systems(img)[j].scroll_anchor.den by {
            lemma_notation_above_member(staves, tab[i], staves.len() as int);
            lemma_notation_above_member(staves, tab[j], staves.len() as int);
            assert(tab[i].top < tab[j].top);
            assert(page_systems(img)[i] == system_of(img, staves, tab[i], off));
            assert(page_systems(img)[j] == system_of(img, staves, tab[j], off));
        }
    }
}

/// The staves of a page that become tab systems are exactly those with four
/// (bass) or six (guitar) lines: every such stave gives a system centred on
/// its lines, and every system is centred on the lines of such a stave.
pub proof fn lemma_tab_systems_are_four_or_six_line_staves(img: GrayView)
    requires
        page_lines(img).len() >= 4,
    ensures
        forall|k: int|
            0 <= k < staves_of(page_lines(img)).len() && ((#[trigger] staves_of(page_lines(img))[k]).line_count
                == 4 || staves_of(page_lines(img))[k].line_count == 6) ==> exists|j: int|
                0 <= j < page_systems(img).len() && (#[trigger] page_systems(img)[j]).string_center.num
                    == staves_of(page_lines(img))[k].top + staves_of(page_lines(img))[k].bottom,
        forall|j: int|
            0 <= j < page_systems(img).len() ==> exists|k: int|
                0 <= k < staves_of(page_lines(img)).len() && ((#[trigger] staves_of(
                    page_lines(img),
                )[k]).line_count == 4 || staves_of(page_lines(img))[k].line_count == 6) && (
                #[trigger] page_systems(img)[j]).string_center.num == staves_of(page_lines(img))[k].top
                    + staves_of(page_lines(img))[k].bottom,
{
    lemma_page_tab_staves(img);
    let st = staves_of(page_lines(img));
    let p = |x: Stave| is_tab_stave(x);
    let tab = st.filter(p);
    assert(tab == tab_staves(st));
    let off = above_offset(tab);
    assert forall|k: int|
        0 <= k < st.len() && ((#[trigger] st[k]).line_count == 4 || st[k].line_count == 6) implies exists|j: int|
            0 <= j < page_systems(img).len() && (#[trigger] page_systems(img)[j]).string_center.num
                == st[k].top + st[k].bottom by {
        st.lemma_filter_contains(p, k);
        let j = choose|j: int| 0 <= j < tab.len() && tab[j] == st[k];
        assert(page_systems(img)[j] == system_of(img, st, tab[j], off));
    }
    assert forall|j: int| 0 <= j < page_systems(img).len() implies exists|k: int|
        0 <= k < st.len() && ((#[trigger] st[k]).line_count == 4 || st[k].line_count == 6) && (
        #[trigger] page_systems(img)[j]).string_center.num == st[k].top + st[k].bottom by {
        assert(tab.contains(tab[j]));
        st.lemma_filter_contains_rev(p, tab[j]);
        let k = choose|k: int| 0 <= k < st.len() && st[k] == tab[j];
        st.lemma_filter_pred(p, j);
        assert(page_systems(img)[j] == system_of(img, st, tab[j], off));
    }
}

proof fn lemma_hits_at_most(img: GrayView, ys: Seq<u64>, x: int, n: int)
    requires
        0 <= n,
    ensures
        hits_upto(img, ys, x, n) <= n,
    decreases n,
{
    if n > 0 {
        lemma_hits_at_most(img, ys, x, n - 1);
    }
}

proof fn lemma_hits_one_light(img: GrayView, ys: Seq<u64>, x: int, n: int, i: int)
    requires
        0 <= i < n,
        !is_dark(img, x, ys[i] as int, DARK_THRESHOLD),
    ensures
        hits_upto(img, ys, x, n) + 1 <= n,
    decreases n,
{
    if n - 1 == i {
        lemma_hits_at_most(img, ys, x, n - 1);
    } else {
        lemma_hits_one_light(img, ys, x, n - 1, i);
    }
}

proof fn lemma_hits_two_light(img: GrayView, ys: Seq<u64>, x: int, n: int, i: int, j: int)
    requires
        0 <= i < j < n,
        !is_dark(img, x, ys[i] as int, DARK_THRESHOLD),
        !is_dark(img, x, ys[j] as int, DARK_THRESHOLD),
    ensures
        hits_upto(img, ys, x, n) + 2 <= n,
    decreases n,
{
    if n - 1 == j {
        lemma_hits_one_light(img, ys, x, n - 1, i);
    } else {
        lemma_hits_two_light(img, ys, x, n - 1, i, j);
    }
}

proof fn lemma_hits_all_but(img: GrayView, ys: Seq<u64>, x: int, n: int, i: int)
    requires
        0 <= n,
        forall|k: int| 0 <= k < n && k != i ==> is_dark(img, x, #[trigger] ys[k] as int, DARK_THRESHOLD),
    ensures
        hits_upto(img, ys, x, n) + 1 >= n,
        !(0 <= i < n) ==> hits_upto(img, ys, x, n) == n,
    decreases n,
{
    if n > 0 {
        lemma_hits_all_but(img, ys, x, n - 1, i);
        if n - 1 != i {
            assert(is_dark(img, x, ys[n - 1] as int, DARK_THRESHOLD));
        }
    }
}

/// A column is a barline of a stave with two or more probe rows exactly when
/// at most one of them is light there: two light probe rows (a fret number
/// darkens one gap, or none) mean no barline, and a column dark in all probe
/// rows but at most one is a barline. With one probe row, a barline is a
/// column dark in it.
pub proof fn lemma_barline_all_but_one_gap(img: GrayView, ys: Seq<u64>, x: int)
    ensures
        ys.len() >= 2 && (exists|i: int, j: int|
            0 <= i < j < ys.len() && !is_dark(img, x, #[trigger] ys[i] as int, DARK_THRESHOLD) && !is_dark(
                img,
                x,
                #[trigger] ys[j] as int,
                DARK_THRESHOLD,
            )) ==> !is_barline(img, ys, x),
        ys.len() >= 2 && (forall|k: int, k2: int|
            0 <= k < k2 < ys.len() ==> is_dark(img, x, #[trigger] ys[k] as int, DARK_THRESHOLD) || is_dark(
                img,
                x,
                #[trigger] ys[k2] as int,
                DARK_THRESHOLD,
            )) ==> is_barline(img, ys, x),
        ys.len() == 1 ==> (is_barline(img, ys, x) <==> is_dark(img, x, ys[0] as int, DARK_THRESHOLD)),
        ys.len() == 0 ==> !is_barline(img, ys, x),
{
    let n = ys.len() as int;
    if n >= 2 {
        if exists|i: int, j: int|
            0 <= i < j < n && !is_dark(img, x, #[trigger] ys[i] as int, DARK_THRESHOLD) && !is_dark(
                img,
                x,
                #[trigger] ys[j] as int,
                DARK_THRESHOLD,
            ) {
            let (i, j) = choose|i: int, j: int|
                0 <= i < j < n && !is_dark(img, x, #[trigger] ys[i] as int, DARK_THRESHOLD) && !is_dark(
                    img,
                    x,
                    #[trigger] ys[j] as int,
                    DARK_THRESHOLD,
                );
            lemma_hits_two_light(img, ys, x, n, i, j);
        } else {
            if exists|i: int| 0 <= i < n && !is_dark(img, x, #[trigger] ys[i] as int, DARK_THRESHOLD) {
                let i = choose|i: int| 0 <= i < n && !is_dark(img, x, #[trigger] ys[i] as int, DARK_THRESHOLD);
                assert forall|k: int| 0 <= k < n && k != i implies is_dark(img, x, #[trigger] ys[k] as int, DARK_THRESHOLD) by {
                    if k < i {
                        assert(!(0 <= k < i < n && !is_dark(img, x, ys[k] as int, DARK_THRESHOLD) && !is_dark(img, x, ys[i] as int, DARK_THRESHOLD)));
                    } else {
                        assert(!(0 <= i < k < n && !is_dark(img, x, ys[i] as int, DARK_THRESHOLD) && !is_dark(img, x, ys[k] as int, DARK_THRESHOLD)));
                    }
                }
                lemma_hits_all_but(img, ys, x, n, i);
            } else {
                lemma_hits_all_but(img, ys, x, n, -1);
            }
        }
    } else if n == 1 {
        assert(hits_upto(img, ys, x, 0) == 0);
    }
}

} // verus!
