use vstd::prelude::*;
use crate::error::GeometryError;

verus! {

/// One end of a panel: which target abscissa it sits at, and on which segment
/// of the closed boundary that abscissa was found.
#[derive(Debug, Clone, Copy, PartialEq, Eq, Structural)]
pub struct Anchor {
    /// Index of the target abscissa.
    pub target: usize,
    /// Index of the boundary segment that holds it: the segment from boundary
    /// point `segment` to the next one, the last one closing onto point 0.
    pub segment: usize,
}

/// A panel, by the anchors of its two ends in the order of the walk.
#[derive(Debug, Clone, Copy, PartialEq, Eq, Structural)]
pub struct Panel {
    pub point_a: Anchor,
    pub point_b: Anchor,
    /// The panel does not run towards larger abscissas: its second end lies at
    /// or before its first. This is what chooses the branch of the panel's
    /// inclination angle.
    pub leftward: bool,
}

/// The boundary of an airfoil as the panel placement sees it: the abscissa of
/// each boundary point in file order, each given as an integer that orders
/// exactly as the coordinates do (equal integers for equal coordinates).
#[derive(Debug)]
pub struct Airfoil {
    pub stations: Vec<i64>,
}

/// Abscissa of point `j` of the closed boundary: the point after the last is
/// the first again.
pub open spec fn closed_at(xs: Seq<i64>, j: int) -> i64 {
    if j < xs.len() {
        xs[j]
    } else {
        xs[0]
    }
}

/// `t` lies between `a` and `b`, ends included, whichever of them is larger.
pub open spec fn between(a: i64, t: i64, b: i64) -> bool {
    (a <= t && t <= b) || (a >= t && t >= b)
}

/// Segment `j` of the closed boundary spans the abscissa `t`.
pub open spec fn covers(xs: Seq<i64>, j: int, t: i64) -> bool {
    0 <= j < xs.len() && between(xs[j], t, closed_at(xs, j + 1))
}

/// The first segment at or after `from` that spans `t`; `xs.len()` if there is
/// none.
pub open spec fn locate(xs: Seq<i64>, from: int, t: i64) -> int
    decreases xs.len() - from,
{
    if from < 0 || from >= xs.len() {
        xs.len() as int
    } else if covers(xs, from, t) {
        from
    } else {
        locate(xs, from + 1, t)
    }
}

/// Where the cursor stands once the first `k` targets have been looked for,
/// each search starting where the one before ended.
pub open spec fn cursor_after(xs: Seq<i64>, ts: Seq<i64>, k: int) -> int
    decreases k,
{
    if k <= 0 {
        0
    } else {
        locate(xs, cursor_after(xs, ts, k - 1), ts[k - 1])
    }
}

/// The segment on which target `i` is found.
pub open spec fn segment_of(xs: Seq<i64>, ts: Seq<i64>, i: int) -> int {
    cursor_after(xs, ts, i + 1)
}

/// Target `i` is found on a segment, and that segment is not vertical, so a
/// height can be read off it.
pub open spec fn placed(xs: Seq<i64>, ts: Seq<i64>, i: int) -> bool {
    let j = segment_of(xs, ts, i);
    0 <= j < xs.len() && xs[j] != closed_at(xs, j + 1)
}

/// The boundary takes `n` panels at the targets `ts`.
pub open spec fn discretizable(xs: Seq<i64>, n: int, ts: Seq<i64>) -> bool {
    &&& n >= 1
    &&& xs.len() >= 2
    &&& ts.len() == n + 1
    &&& forall|i: int| 0 <= i <= n ==> placed(xs, ts, i)
}

pub open spec fn anchor_at(xs: Seq<i64>, ts: Seq<i64>, i: int) -> Anchor {
    Anchor { target: i as usize, segment: segment_of(xs, ts, i) as usize }
}

/// Panel `i` runs from target `i` to target `i + 1`.
pub open spec fn panel_at(xs: Seq<i64>, ts: Seq<i64>, i: int) -> Panel {
    Panel {
        point_a: anchor_at(xs, ts, i),
        point_b: anchor_at(xs, ts, i + 1),
        leftward: ts[i + 1] <= ts[i],
    }
}

/// `lo` is the first index of the smallest abscissa and `hi` the first index
/// of the largest.
pub open spec fn is_extent(xs: Seq<i64>, lo: int, hi: int) -> bool {
    &&& 0 <= lo < xs.len()
    &&& 0 <= hi < xs.len()
    &&& forall|k: int| 0 <= k < xs.len() ==> xs[lo] <= #[trigger] xs[k] <= xs[hi]
    &&& forall|k: int| 0 <= k < lo ==> #[trigger] xs[k] > xs[lo]
    &&& forall|k: int| 0 <= k < hi ==> #[trigger] xs[k] < xs[hi]
}

/// A boundary has one extent: the two indices are determined by the
/// abscissas.
pub proof fn extent_is_unique(xs: Seq<i64>, lo: int, hi: int, lo2: int, hi2: int)
    requires
        is_extent(xs, lo, hi),
        is_extent(xs, lo2, hi2),
    ensures
        lo == lo2,
        hi == hi2,
{
    if lo < lo2 {
        assert(xs[lo] > xs[lo2]);
    } else if lo2 < lo {
        assert(xs[lo2] > xs[lo]);
    }
    if hi < hi2 {
        assert(xs[hi] < xs[hi2]);
    } else if hi2 < hi {
        assert(xs[hi2] < xs[hi]);
    }
}

/// A search from `from` ends at or after `from`, never beyond the last
/// segment's successor, passes only segments that do not span `t`, and ends on
/// one that does unless it ran out.
pub proof fn locate_is_first(xs: Seq<i64>, from: int, t: i64)
    requires
        0 <= from <= xs.len(),
    ensures
        from <= locate(xs, from, t) <= xs.len(),
        locate(xs, from, t) < xs.len() ==> covers(xs, locate(xs, from, t), t),
        forall|k: int| from <= k < locate(xs, from, t) ==> !covers(xs, k, t),
    decreases xs.len() - from,
{
    if from < xs.len() && !covers(xs, from, t) {
        locate_is_first(xs, from + 1, t);
    }
}

/// The cursor never moves back: a later target is found on the same segment
/// as an earlier one or on a later segment.
pub proof fn cursor_monotone(xs: Seq<i64>, ts: Seq<i64>, i: int, k: int)
    requires
        0 <= i <= k,
    ensures
        0 <= cursor_after(xs, ts, i) <= cursor_after(xs, ts, k) <= xs.len(),
    decreases k,
{
    if k > 0 {
        if i < k {
            cursor_monotone(xs, ts, i, k - 1);
        } else {
            cursor_monotone(xs, ts, i - 1, k - 1);
        }
        locate_is_first(xs, cursor_after(xs, ts, k - 1), ts[k - 1]);
    }
}

/// A target that is placed lies on its segment: between the abscissas of the
/// segment's two ends, which differ.
pub proof fn placed_is_covered(xs: Seq<i64>, ts: Seq<i64>, i: int)
    requires
        0 <= i < ts.len(),
        placed(xs, ts, i),
    ensures
        covers(xs, segment_of(xs, ts, i), ts[i]),
{
    cursor_monotone(xs, ts, i, i);
    locate_is_first(xs, cursor_after(xs, ts, i), ts[i]);
}

/// A segment that spans the target is not passed: the search from `from`
/// ends on it or before it.
pub proof fn locate_finds(xs: Seq<i64>, from: int, k: int, t: i64)
    requires
        0 <= from <= k,
        covers(xs, k, t),
    ensures
        from <= locate(xs, from, t) <= k,
{
    locate_is_first(xs, from, t);
}

/// The walk cannot jump over a target: if `t` lies between the abscissa at
/// the cursor and that of a later point `k` of the closed boundary, the
/// search ends on a segment before `k`.
pub proof fn crossing_is_found(xs: Seq<i64>, from: int, k: int, t: i64)
    requires
        0 <= from < k <= xs.len(),
        between(xs[from], t, closed_at(xs, k)),
    ensures
        from <= locate(xs, from, t) < k,
        covers(xs, locate(xs, from, t), t),
    decreases k - from,
{
    if !covers(xs, from, t) {
        crossing_is_found(xs, from + 1, k, t);
    }
}

/// The boundary runs as a coordinate file lists it: from the trailing edge
/// with strictly falling abscissas to the nose, from there with strictly
/// rising abscissas, and its last point does not lie beyond its first.
pub open spec fn selig_shaped(xs: Seq<i64>, nose: int) -> bool {
    &&& 0 < nose < xs.len()
    &&& forall|a: int, b: int| 0 <= a < b <= nose ==> #[trigger] xs[a] > #[trigger] xs[b]
    &&& forall|a: int, b: int| nose <= a < b < xs.len() ==> #[trigger] xs[a] < #[trigger] xs[b]
    &&& xs[xs.len() - 1] <= xs[0]
}

/// The targets run the same way: falling, not necessarily strictly, up to
/// the one at `turn`, and rising from there.
pub open spec fn circle_ordered(ts: Seq<i64>, turn: int) -> bool {
    &&& 0 <= turn < ts.len()
    &&& forall|a: int, b: int| 0 <= a <= b <= turn ==> #[trigger] ts[a] >= #[trigger] ts[b]
    &&& forall|a: int, b: int| turn <= a <= b < ts.len() ==> #[trigger] ts[a] <= #[trigger] ts[b]
}

/// The targets lie within the boundary's extent.
pub open spec fn within_extent(xs: Seq<i64>, nose: int, ts: Seq<i64>) -> bool {
    forall|i: int| 0 <= i < ts.len() ==> xs[nose] <= #[trigger] ts[i] <= xs[0]
}

proof fn walk_keeps_up(xs: Seq<i64>, nose: int, ts: Seq<i64>, turn: int, i: int)
    requires
        selig_shaped(xs, nose),
        circle_ordered(ts, turn),
        within_extent(xs, nose, ts),
        0 <= i < ts.len(),
    ensures
        placed(xs, ts, i),
        covers(xs, segment_of(xs, ts, i), ts[i]),
        i <= turn ==> segment_of(xs, ts, i) < nose,
    decreases i,
{
    let prev = cursor_after(xs, ts, i);
    let t = ts[i];
    let last = xs.len() - 1;
    if i > 0 {
        walk_keeps_up(xs, nose, ts, turn, i - 1);
        assert(prev == segment_of(xs, ts, i - 1));
    }
    assert(segment_of(xs, ts, i) == locate(xs, prev, t));
    if i <= turn {
        if i > 0 {
            assert(xs[prev] > xs[prev + 1]);
            assert(ts[i - 1] >= ts[i]);
        }
        crossing_is_found(xs, prev, nose, t);
        let j = locate(xs, prev, t);
        assert(xs[j] > xs[j + 1]);
    } else {
        assert(ts[i - 1] <= ts[i]);
        if prev < nose {
            assert(xs[prev] > xs[prev + 1]);
            if t <= xs[prev] {
                crossing_is_found(xs, prev, nose, t);
            } else {
                crossing_is_found(xs, prev, xs.len() as int, t);
            }
        } else {
            if prev < last {
                assert(xs[prev] < xs[prev + 1]);
            }
            crossing_is_found(xs, prev, xs.len() as int, t);
        }
        let j = locate(xs, prev, t);
        locate_is_first(xs, prev, t);
        if j < nose {
            assert(xs[j] > xs[j + 1]);
        } else if j < last {
            assert(xs[j] < xs[j + 1]);
        } else if xs[last] == xs[0] {
            assert(between(xs[last - 1], t, xs[last]));
            assert(covers(xs, last - 1, t));
        }
    }
}

/// A boundary in the order of a coordinate file takes any number of panels
/// whose targets go round with it inside its extent: every target is found,
/// none of them on a vertical segment.
pub proof fn selig_boundary_takes_panels(
    xs: Seq<i64>,
    nose: int,
    ts: Seq<i64>,
    turn: int,
    n: int,
)
    requires
        n >= 1,
        ts.len() == n + 1,
        selig_shaped(xs, nose),
        circle_ordered(ts, turn),
        within_extent(xs, nose, ts),
    ensures
        discretizable(xs, n, ts),
{
    assert forall|i: int| 0 <= i <= n implies placed(xs, ts, i) by {
        walk_keeps_up(xs, nose, ts, turn, i);
    }
}

/// Consecutive panels share an end: where one stops the next begins.
pub proof fn panels_chain(xs: Seq<i64>, ts: Seq<i64>, i: int)
    ensures
        panel_at(xs, ts, i).point_b == panel_at(xs, ts, i + 1).point_a,
{
}

impl Airfoil {
    pub fn new(stations: Vec<i64>) -> (airfoil: Airfoil)
        ensures
            airfoil.stations@ == stations@,
    {
        Airfoil { stations }
    }

    /// Index of the next point on the closed boundary.
    fn next_index(&self, j: usize) -> (n: usize)
        requires
            j < self.stations@.len(),
        ensures
            n < self.stations@.len(),
            self.stations@[n as int] == closed_at(self.stations@, j + 1),
    {
        let m: usize = self.stations.len();
        if j + 1 < m {
            j + 1
        } else {
            0
        }
    }

    /// Where the leftmost and the rightmost boundary point stand: the first
    /// index of the smallest abscissa and the first index of the largest.
    /// The chord is the difference of the two coordinates, its centre their
    /// mean. `None` for a boundary without points.
    pub fn x_extent(&self) -> (res: Option<(usize, usize)>)
        ensures
            self.stations@.len() == 0 <==> res.is_none(),
            res.is_some() ==> is_extent(
                self.stations@,
                res.unwrap().0 as int,
                res.unwrap().1 as int,
            ),
    {
        if self.stations.len() == 0 {
            return None;
        }
        let mut lo: usize = 0;
        let mut hi: usize = 0;
        let mut k: usize = 1;
        while k < self.stations.len()
            invariant
                1 <= k <= self.stations@.len(),
                lo < k,
                hi < k,
                forall|q: int|
                    0 <= q < k ==> self.stations@[lo as int] <= #[trigger] self.stations@[q]
                        <= self.stations@[hi as int],
                forall|q: int| 0 <= q < lo ==> #[trigger] self.stations@[q] > self.stations@[lo as int],
                forall|q: int| 0 <= q < hi ==> #[trigger] self.stations@[q] < self.stations@[hi as int],
            decreases self.stations@.len() - k,
        {
            if self.stations[k] < self.stations[lo] {
                lo = k;
            }
            if self.stations[k] > self.stations[hi] {
                hi = k;
            }
            k += 1;
        }
        Some((lo, hi))
    }

    /// Moves the cursor from `from` to the first segment that spans `t`.
    pub fn locate_from(&self, from: usize, t: i64) -> (j: usize)
        requires
            from <= self.stations@.len(),
        ensures
            j == locate(self.stations@, from as int, t),
            from <= j <= self.stations@.len(),
    {
        let m: usize = self.stations.len();
        let mut j: usize = from;
        while j < m
            invariant
                m == self.stations@.len(),
                from <= j <= m,
                locate(self.stations@, from as int, t) == locate(self.stations@, j as int, t),
            decreases m - j,
        {
            let n: usize = self.next_index(j);
            let a: i64 = self.stations[j];
            let b: i64 = self.stations[n];
            if (a <= t && t <= b) || (a >= t && t >= b) {
                return j;
            }
            j += 1;
        }
        j
    }

    /// Places `n_panels` panels on the closed boundary. `targets` holds the
    /// `n_panels + 1` abscissas of the panel ends, in the order of the walk.
    /// One cursor walks the segments once: each target is looked for from the
    /// segment on which the one before was found. All panels come back or
    /// none: the request fails when there are no panels to make, fewer than
    /// two boundary points, a number of targets other than `n_panels + 1`, a
    /// target that no remaining segment spans, or a target found on a
    /// vertical segment.
    pub fn define_panels(&self, n_panels: usize, targets: &Vec<i64>) -> (res: Result<
        Vec<Panel>,
        GeometryError,
    >)
        ensures
            discretizable(self.stations@, n_panels as int, targets@) <==> res.is_ok(),
            res.is_err() ==> res.unwrap_err() == GeometryError::DegenerateGeometry,
            n_panels == 0 ==> res.is_err(),
            res.is_ok() ==> res.unwrap()@.len() == n_panels,
            res.is_ok() ==> forall|i: int|
                0 <= i < n_panels ==> #[trigger] res.unwrap()@[i] == panel_at(
                    self.stations@,
                    targets@,
                    i,
                ),
            res.is_ok() ==> forall|i: int|
                0 <= i < n_panels - 1 ==> (#[trigger] res.unwrap()@[i]).point_b
                    == res.unwrap()@[i + 1].point_a,
    {
        let m: usize = self.stations.len();
        let n_targets: usize = targets.len();
        if n_panels == 0 || m < 2 || n_panels == usize::MAX {
            return Err(GeometryError::DegenerateGeometry);
        }
        if n_targets != n_panels + 1 {
            return Err(GeometryError::DegenerateGeometry);
        }
        let ghost xs = self.stations@;
        let ghost ts = targets@;
        let mut segments: Vec<usize> = Vec::new();
        let mut j: usize = 0;
        let mut i: usize = 0;
        while i <= n_panels
            invariant
                xs == self.stations@,
                ts == targets@,
                m == xs.len(),
                ts.len() == n_panels + 1,
                n_panels < usize::MAX,
                i <= n_panels + 1,
                segments@.len() == i,
                j == cursor_after(xs, ts, i as int),
                j <= m,
                forall|k: int| 0 <= k < i ==> placed(xs, ts, k),
                forall|k: int| 0 <= k < i ==> #[trigger] segments@[k] == segment_of(xs, ts, k),
            decreases n_panels + 1 - i,
        {
            j = self.locate_from(j, targets[i]);
            assert(j == segment_of(xs, ts, i as int));
            if j >= m {
                assert(!placed(xs, ts, i as int));
                return Err(GeometryError::DegenerateGeometry);
            }
            let n: usize = self.next_index(j);
            if self.stations[j] == self.stations[n] {
                assert(!placed(xs, ts, i as int));
                return Err(GeometryError::DegenerateGeometry);
            }
            segments.push(j);
            i += 1;
        }
        let mut panels: Vec<Panel> = Vec::new();
        let mut k: usize = 0;
        while k < n_panels
            invariant
                k <= n_panels,
                ts == targets@,
                ts.len() == n_panels + 1,
                segments@.len() == n_panels + 1,
                panels@.len() == k,
                forall|q: int|
                    0 <= q <= n_panels ==> #[trigger] segments@[q] == segment_of(xs, ts, q),
                forall|q: int| 0 <= q < k ==> #[trigger] panels@[q] == panel_at(xs, ts, q),
            decreases n_panels - k,
        {
            let point_a = Anchor { target: k, segment: segments[k] };
            let point_b = Anchor { target: k + 1, segment: segments[k + 1] };
            let leftward: bool = targets[k + 1] <= targets[k];
            panels.push(Panel { point_a, point_b, leftward });
            k += 1;
        }
        Ok(panels)
    }
}

} // verus!
