//! Finding the best segmentation.

use vstd::prelude::*;
use crate::analyze::logo::track::LogoInterval;
use crate::analyze::in_time;
use crate::analyze::SECOND;
use crate::analyze::TIME_LIMIT;
use crate::cmcut::boundary::Boundary;
use crate::cmcut::score::confidence_in;
use crate::cmcut::score::score_of;
use crate::cmcut::score::segment_confidence;
use crate::cmcut::score::segment_score;
use crate::cmcut::score::CutOptions;
use crate::cmcut::score::SegmentKind;
use crate::cmcut::score::SCORE_LIMIT;

verus! {

/// One labelled stretch of the recording.
#[derive(Debug, Clone, Copy, PartialEq, Eq, Structural)]
pub struct Segment {
    /// Start, in microseconds from the beginning of the recording.
    pub start: i64,
    /// End, in microseconds.
    pub end: i64,
    /// What this stretch is.
    pub kind: SegmentKind,
    /// How much the segmenter trusts this label, in millionths.
    pub confidence: i64,
}

impl Segment {
    /// Both ends are within the limit on moments.
    pub open spec fn in_time(self) -> bool {
        in_time(self.start) && in_time(self.end)
    }

    /// Length in microseconds.
    pub fn duration(&self) -> (length: i64)
        requires
            self.in_time(),
        ensures
            length == self.end - self.start,
    {
        self.end - self.start
    }
}

/// How long the logo was present before a moment, over all intervals.
pub open spec fn logo_before(intervals: Seq<LogoInterval>, at: int) -> int
    decreases intervals.len(),
{
    if intervals.len() == 0 {
        0
    } else {
        let last = intervals.last();
        let end = if last.end < at { last.end as int } else { at };
        logo_before(intervals.drop_last(), at) + if end > last.start { end - last.start } else { 0 }
    }
}

/// How long the logo was present before each boundary.
pub open spec fn coverage_of(
    intervals: Seq<LogoInterval>,
    boundaries: Seq<Boundary>,
) -> Seq<i128> {
    Seq::new(boundaries.len(), |i: int| logo_before(intervals, boundaries[i].at as int) as i128)
}

/// How much of a stretch `seconds` long between two boundaries the logo was
/// present for, given the sums up to each boundary.
pub open spec fn covered_between(prefix: Seq<i128>, from: int, to: int, seconds: int) -> int {
    let raw = prefix[to] - prefix[from];
    if raw < 0 {
        0
    } else if raw > seconds {
        seconds
    } else {
        raw
    }
}

/// Every sum is small enough to subtract from another.
pub open spec fn sums_in_reach(prefix: Seq<i128>) -> bool {
    forall|i: int|
        0 <= i < prefix.len() ==> 0 <= #[trigger] prefix[i] <= 0x1_0000_0000 * 2 * TIME_LIMIT
}

/// Prefix sums of logo presence, so segment coverage is an O(1) lookup.
pub struct LogoCoverage {
    /// Microseconds of logo present from the start of the recording to each
    /// boundary.
    pub prefix: Vec<i128>,
}

impl LogoCoverage {
    /// Every sum is small enough to subtract from another.
    pub open spec fn wf(self) -> bool {
        sums_in_reach(self.prefix@)
    }

    /// Measure the logo's presence up to each boundary.
    pub fn new(intervals: &[LogoInterval], boundaries: &[Boundary]) -> (coverage: LogoCoverage)
        requires
            intervals@.len() <= u32::MAX,
            forall|i: int| 0 <= i < intervals@.len() ==> (#[trigger] intervals@[i]).in_time(),
            forall|i: int| 0 <= i < boundaries@.len() ==> in_time((#[trigger] boundaries@[i]).at),
        ensures
            coverage.prefix@ == coverage_of(intervals@, boundaries@),
            coverage.wf(),
    {
        let mut prefix: Vec<i128> = Vec::new();
        for i in 0..boundaries.len()
            invariant
                intervals@.len() <= u32::MAX,
                forall|i: int| 0 <= i < intervals@.len() ==> (#[trigger] intervals@[i]).in_time(),
                forall|i: int|
                    0 <= i < boundaries@.len() ==> in_time((#[trigger] boundaries@[i]).at),
                prefix@.len() == i,
                forall|j: int|
                    0 <= j < i ==> #[trigger] prefix@[j] == logo_before(
                        intervals@,
                        boundaries@[j].at as int,
                    ),
                forall|j: int|
                    0 <= j < i ==> 0 <= #[trigger] prefix@[j] <= 0x1_0000_0000 * 2 * TIME_LIMIT,
        {
            let at: i64 = boundaries[i].at;
            assert(in_time(boundaries@[i as int].at));
            let mut sum: i128 = 0;
            for k in 0..intervals.len()
                invariant
                    in_time(at),
                    intervals@.len() <= u32::MAX,
                    forall|i: int|
                        0 <= i < intervals@.len() ==> (#[trigger] intervals@[i]).in_time(),
                    sum == logo_before(intervals@.take(k as int), at as int),
                    0 <= sum <= k * 2_000_000_000_000_000,
            {
                let interval = intervals[k];
                assert(intervals@[k as int].in_time());
                assert(intervals@.take(k + 1).drop_last() =~= intervals@.take(k as int));
                let end: i64 = if interval.end < at { interval.end } else { at };
                if end > interval.start {
                    sum += (end - interval.start) as i128;
                }
            }
            assert(intervals@.take(intervals@.len() as int) =~= intervals@);
            prefix.push(sum);
        }
        assert(prefix@ =~= coverage_of(intervals@, boundaries@));
        LogoCoverage { prefix }
    }

    /// How much of the stretch between two boundaries the logo was present
    /// for.
    pub fn covered(&self, from: usize, to: usize, seconds: i64) -> (covered: i64)
        requires
            self.wf(),
            from < self.prefix@.len(),
            to < self.prefix@.len(),
            seconds >= 0,
        ensures
            covered == covered_between(self.prefix@, from as int, to as int, seconds as int),
            0 <= covered <= seconds,
    {
        let raw: i128 = self.prefix[to] - self.prefix[from];
        if raw < 0 {
            0
        } else if raw > seconds as i128 {
            seconds
        } else {
            raw as i64
        }
    }
}

/// Everything a segmentation is judged against.
pub ghost struct Evidence {
    /// Where segments may begin and end.
    pub boundaries: Seq<Boundary>,
    /// How long the logo was present before each boundary.
    pub coverage: Seq<i128>,
    /// Whether there is a logo to go on.
    pub logo_available: bool,
    /// The tunables.
    pub options: CutOptions,
}

impl Evidence {
    /// The length of the stretch between two boundaries.
    pub open spec fn seconds(self, from: int, to: int) -> int {
        self.boundaries[to].at - self.boundaries[from].at
    }

    /// How much of the stretch between two boundaries has the logo.
    pub open spec fn covered(self, from: int, to: int) -> int {
        covered_between(self.coverage, from, to, self.seconds(from, to))
    }

    /// What the stretch between two boundaries is worth under a label.
    #[verifier::opaque]
    pub open spec fn worth(self, from: int, to: int, kind: SegmentKind) -> int {
        score_of(
            self.seconds(from, to),
            self.covered(from, to),
            kind,
            self.logo_available,
            self.options,
        )
    }

    /// What switching label at a boundary is worth: its quality's share of
    /// the bonus, less the price of a switch.
    #[verifier::opaque]
    pub open spec fn switch(self, at: int) -> int {
        self.boundaries[at].spec_quality() * self.options.weights.boundary_bonus * 10_000
            - self.options.weights.switch_penalty * SECOND
    }

    /// `path` runs from the first boundary to boundary `end`, each step of it
    /// forward in time.
    pub open spec fn is_path(self, path: Seq<int>, end: int) -> bool {
        &&& path.len() >= 2
        &&& path[0] == 0
        &&& path.last() == end
        &&& forall|m: int| 0 <= m < path.len() - 1 ==> #[trigger] self.steps(path, m)
    }

    /// Step `m` of a path goes from one boundary to a later one.
    pub open spec fn steps(self, path: Seq<int>, m: int) -> bool {
        &&& 0 <= path[m] < path[m + 1] < self.boundaries.len()
        &&& self.seconds(path[m], path[m + 1]) > 0
    }

    /// The score of the segmentation along a path whose last segment has this
    /// label; labels alternate.
    pub open spec fn path_score(self, path: Seq<int>, kind: SegmentKind) -> int
        decreases path.len(),
    {
        if path.len() < 2 {
            0
        } else {
            let from = path[path.len() - 2];
            self.worth(from, path.last(), kind) + if path.len() == 2 {
                0
            } else {
                self.switch(from) + self.path_score(path.drop_last(), kind.spec_other())
            }
        }
    }

    /// No path to the same boundary under the same label scores higher, and
    /// of those that score as high none begins its last segment earlier.
    #[verifier::opaque]
    pub open spec fn is_best(self, path: Seq<int>, kind: SegmentKind) -> bool {
        &&& self.is_path(path, path.last())
        &&& forall|other: Seq<int>| #[trigger]
            self.is_path(other, path.last()) ==> self.path_score(other, kind) <= self.path_score(
                path,
                kind,
            ) && (self.path_score(other, kind) == self.path_score(path, kind)
                ==> path[path.len() - 2] <= other[other.len() - 2])
    }

    /// The label of segment `m` along a path whose last segment has `kind`.
    pub open spec fn kind_along(self, path: Seq<int>, kind: SegmentKind, m: int) -> SegmentKind {
        if (path.len() - 2 - m) % 2 == 0 {
            kind
        } else {
            kind.spec_other()
        }
    }

    /// The segment between two boundaries under a label.
    #[verifier::opaque]
    pub open spec fn segment(self, from: int, to: int, kind: SegmentKind) -> Segment {
        Segment {
            start: self.boundaries[from].at,
            end: self.boundaries[to].at,
            kind,
            confidence: confidence_in(
                self.seconds(from, to),
                self.covered(from, to),
                kind,
                self.boundaries[from],
                self.boundaries[to],
                self.logo_available,
                self.options,
            ) as i64,
        }
    }

    /// The segments along a path.
    pub open spec fn segments_along(self, path: Seq<int>, kind: SegmentKind) -> Seq<Segment> {
        Seq::new(
            (path.len() - 1) as nat,
            |m: int| self.segment(path[m], path[m + 1], self.kind_along(path, kind, m)),
        )
    }

    /// The segmentation to choose: best all the way along, through to the
    /// last boundary, and ending in programme unless ending in a commercial
    /// scores strictly higher.
    pub open spec fn is_chosen(self, path: Seq<int>, kind: SegmentKind) -> bool {
        let end = self.boundaries.len() - 1;
        &&& self.is_path(path, end)
        &&& forall|m: int|
            0 <= m < path.len() - 1 ==> self.is_best(
                path.take(m + 2),
                #[trigger] self.kind_along(path, kind, m),
            )
        &&& forall|other: Seq<int>| #[trigger]
            self.is_path(other, end) ==> match kind {
                SegmentKind::Programme => self.path_score(other, SegmentKind::Commercial)
                    <= self.path_score(path, kind),
                SegmentKind::Commercial => self.path_score(other, SegmentKind::Programme)
                    < self.path_score(path, kind),
            }
    }

    /// `segments` is the chosen segmentation.
    pub open spec fn is_solution(self, segments: Seq<Segment>) -> bool {
        exists|path: Seq<int>, kind: SegmentKind| #[trigger]
            self.is_chosen(path, kind) && segments == self.segments_along(path, kind)
    }

    /// The boundaries lie within the limit, and there are few enough of them
    /// to sum their scores.
    pub open spec fn wf(self) -> bool {
        &&& self.boundaries.len() <= u32::MAX
        &&& forall|i: int|
            0 <= i < self.boundaries.len() ==> 0 <= (#[trigger] self.boundaries[i]).at
                <= TIME_LIMIT
        &&& sums_in_reach(self.coverage)
        &&& self.coverage.len() == self.boundaries.len()
        &&& self.options.wf()
    }
}

/// No path to boundary `to` scores further from zero than this.
spec fn score_room(to: int) -> int {
    to * 12_000_000_000_000_000_000_000_000_000
}

/// One cell of the dynamic-programming table: the best way to end at a
/// boundary under a label.
#[derive(Clone, Copy)]
struct Cell {
    score: i128,
    /// Boundary index this segment started at.
    from: usize,
    reachable: bool,
}

/// The two cells of one boundary.
#[derive(Clone, Copy)]
struct Row {
    programme: Cell,
    commercial: Cell,
}

impl Row {
    spec fn spec_cell(self, kind: SegmentKind) -> Cell {
        match kind {
            SegmentKind::Programme => self.programme,
            SegmentKind::Commercial => self.commercial,
        }
    }

    fn cell(&self, kind: SegmentKind) -> (cell: Cell)
        ensures
            cell == self.spec_cell(kind),
    {
        match kind {
            SegmentKind::Programme => self.programme,
            SegmentKind::Commercial => self.commercial,
        }
    }
}

impl Evidence {
    /// The score of ending at `to` by way of `from`, given the rows before.
    spec fn via(self, rows: Seq<Row>, from: int, to: int, kind: SegmentKind) -> int {
        self.worth(from, to, kind) + if from == 0 {
            0
        } else {
            self.switch(from) + rows[from].spec_cell(kind.spec_other()).score
        }
    }

    /// Boundary `to` can be reached by way of `from`.
    spec fn can_come(self, rows: Seq<Row>, from: int, to: int, kind: SegmentKind) -> bool {
        self.seconds(from, to) > 0 && (from == 0 || rows[from].spec_cell(
            kind.spec_other(),
        ).reachable)
    }

    /// A cell for `to` agrees with the rows before it, having looked at every
    /// start below `seen`.
    spec fn cell_ok(
        self,
        rows: Seq<Row>,
        cell: Cell,
        to: int,
        kind: SegmentKind,
        seen: int,
    ) -> bool {
        &&& cell.reachable ==> {
            &&& cell.from < seen
            &&& self.can_come(rows, cell.from as int, to, kind)
            &&& cell.score == self.via(rows, cell.from as int, to, kind)
            &&& -score_room(to) <= cell.score <= score_room(to)
        }
        &&& forall|from: int|
            0 <= from < seen && #[trigger] self.can_come(rows, from, to, kind) ==> cell.reachable
                && self.via(rows, from, to, kind) <= cell.score && (self.via(rows, from, to, kind)
                == cell.score ==> cell.from <= from)
    }

    spec fn rows_ok(self, rows: Seq<Row>, count: int) -> bool {
        forall|to: int, kind: SegmentKind|
            1 <= to < count ==> self.cell_ok(
                rows,
                #[trigger] rows[to].spec_cell(kind),
                to,
                kind,
                to,
            )
    }

    /// The path the table records to a boundary.
    spec fn trace(self, rows: Seq<Row>, to: int, kind: SegmentKind) -> Seq<int>
        decreases to,
    {
        let from = rows[to].spec_cell(kind).from as int;
        if to <= 0 || from >= to {
            seq![0]
        } else {
            self.trace(rows, from, kind.spec_other()).push(to)
        }
    }

    /// A recorded path is a path, and its score is the cell's.
    proof fn trace_is_path(self, rows: Seq<Row>, count: int, to: int, kind: SegmentKind)
        requires
            count <= rows.len() <= self.boundaries.len(),
            self.rows_ok(rows, count),
            1 <= to < count,
            rows[to].spec_cell(kind).reachable,
        ensures
            self.is_path(self.trace(rows, to, kind), to),
            self.path_score(self.trace(rows, to, kind), kind) == rows[to].spec_cell(kind).score,
        decreases to,
    {
        let cell = rows[to].spec_cell(kind);
        assert(self.cell_ok(rows, cell, to, kind, to));
        let from = cell.from as int;
        let path = self.trace(rows, to, kind);
        if from == 0 {
            assert(self.trace(rows, 0, kind.spec_other()) == seq![0int]);
            assert(path =~= seq![0int, to]);
            assert(self.steps(path, 0));
        } else {
            self.trace_is_path(rows, count, from, kind.spec_other());
            let before = self.trace(rows, from, kind.spec_other());
            assert(path == before.push(to));
            assert(path.drop_last() =~= before);
            assert(path[path.len() - 2] == from);
            assert forall|m: int| 0 <= m < path.len() - 1 implies #[trigger] self.steps(
                path,
                m,
            ) by {
                if m < before.len() - 1 {
                    assert(self.steps(before, m));
                }
            }
        }
    }

    /// No path beats the cell it ends in.
    proof fn cell_is_best(
        self,
        rows: Seq<Row>,
        count: int,
        to: int,
        kind: SegmentKind,
        path: Seq<int>,
    )
        requires
            count <= rows.len() <= self.boundaries.len(),
            self.rows_ok(rows, count),
            1 <= to < count,
            self.is_path(path, to),
        ensures
            rows[to].spec_cell(kind).reachable,
            self.path_score(path, kind) <= rows[to].spec_cell(kind).score,
            self.path_score(path, kind) == rows[to].spec_cell(kind).score
                ==> rows[to].spec_cell(kind).from <= path[path.len() - 2],
        decreases path.len(),
    {
        let cell = rows[to].spec_cell(kind);
        assert(self.cell_ok(rows, cell, to, kind, to));
        let from = path[path.len() - 2];
        assert(self.steps(path, path.len() - 2));
        if path.len() == 2 {
            assert(self.can_come(rows, from, to, kind));
        } else {
            let before = path.drop_last();
            assert(self.is_path(before, from)) by {
                assert forall|m: int| 0 <= m < before.len() - 1 implies #[trigger] self.steps(
                    before,
                    m,
                ) by {
                    assert(self.steps(path, m));
                }
            }
            self.path_climbs(before, before.len() - 1);
            self.cell_is_best(rows, count, from, kind.spec_other(), before);
            assert(self.can_come(rows, from, to, kind));
        }
    }

    /// A path's indices are at least their positions.
    pub(crate) proof fn path_climbs(self, path: Seq<int>, m: int)
        requires
            self.is_path(path, path.last()),
            0 <= m < path.len(),
        ensures
            path[m] >= m,
        decreases m,
    {
        if m > 0 {
            self.path_climbs(path, m - 1);
            assert(self.steps(path, m - 1));
        }
    }

    /// Labels along a path, seen from one step back.
    pub(crate) proof fn kinds_alternate(self, path: Seq<int>, kind: SegmentKind, m: int)
        requires
            path.len() >= 3,
            0 <= m < path.len() - 2,
        ensures
            self.kind_along(path, kind, m) == self.kind_along(
                path.drop_last(),
                kind.spec_other(),
                m,
            ),
    {
    }

    /// The recorded path is the best to where it leads.
    proof fn trace_is_best(self, rows: Seq<Row>, count: int, to: int, kind: SegmentKind)
        requires
            count <= rows.len() <= self.boundaries.len(),
            self.rows_ok(rows, count),
            1 <= to < count,
            rows[to].spec_cell(kind).reachable,
        ensures
            self.is_best(self.trace(rows, to, kind), kind),
    {
        reveal(Evidence::is_best);
        let cell = rows[to].spec_cell(kind);
        assert(self.cell_ok(rows, cell, to, kind, to));
        let from = cell.from as int;
        let path = self.trace(rows, to, kind);
        self.trace_is_path(rows, count, to, kind);
        assert(path[path.len() - 2] == from) by {
            if from == 0 {
                assert(self.trace(rows, 0, kind.spec_other()) == seq![0int]);
            } else {
                self.trace_is_path(rows, count, from, kind.spec_other());
            }
        }
        assert forall|other: Seq<int>| #[trigger] self.is_path(other, to) implies self.path_score(
            other,
            kind,
        ) <= self.path_score(path, kind) && (self.path_score(other, kind) == self.path_score(
            path,
            kind,
        ) ==> path[path.len() - 2] <= other[other.len() - 2]) by {
            self.cell_is_best(rows, count, to, kind, other);
        }
    }

    /// The recorded path is the best all the way along.
    proof fn trace_is_best_along(
        self,
        rows: Seq<Row>,
        count: int,
        to: int,
        kind: SegmentKind,
        m: int,
    )
        requires
            count <= rows.len() <= self.boundaries.len(),
            self.rows_ok(rows, count),
            1 <= to < count,
            rows[to].spec_cell(kind).reachable,
            0 <= m < self.trace(rows, to, kind).len() - 1,
        ensures
            self.is_best(
                self.trace(rows, to, kind).take(m + 2),
                self.kind_along(self.trace(rows, to, kind), kind, m),
            ),
        decreases to,
    {
        let path = self.trace(rows, to, kind);
        if m == path.len() - 2 {
            assert(path.take(m + 2) =~= path);
            self.trace_is_best(rows, count, to, kind);
        } else {
            let cell = rows[to].spec_cell(kind);
            assert(self.cell_ok(rows, cell, to, kind, to));
            let from = cell.from as int;
            let before = self.trace(rows, from, kind.spec_other());
            assert(path == before.push(to));
            assert(from > 0) by {
                if from == 0 {
                    assert(before == seq![0int]);
                }
            }
            assert(path.drop_last() =~= before);
            self.kinds_alternate(path, kind, m);
            assert(path.take(m + 2) =~= before.take(m + 2));
            self.trace_is_best_along(rows, count, from, kind.spec_other(), m);
        }
    }
}

impl Evidence {
    /// Rows added later leave a cell's account of itself alone.
    proof fn cell_ok_push(
        self,
        rows: Seq<Row>,
        row: Row,
        cell: Cell,
        to: int,
        kind: SegmentKind,
        seen: int,
    )
        requires
            self.cell_ok(rows, cell, to, kind, seen),
            0 <= seen <= rows.len(),
        ensures
            self.cell_ok(rows.push(row), cell, to, kind, seen),
    {
        let more = rows.push(row);
        assert forall|from: int|
            0 <= from < seen && #[trigger] self.can_come(more, from, to, kind) implies cell.reachable
            && self.via(more, from, to, kind) <= cell.score && (self.via(more, from, to, kind)
            == cell.score ==> cell.from <= from) by {
            assert(self.can_come(rows, from, to, kind));
            assert(self.via(rows, from, to, kind) == self.via(more, from, to, kind));
        }
    }

    /// Each step of a path goes forward, so the whole of it does.
    proof fn path_advances(self, path: Seq<int>, m: int)
        requires
            self.is_path(path, path.last()),
            1 <= m < path.len(),
        ensures
            self.seconds(0, path[m]) > 0,
        decreases m,
    {
        if m > 1 {
            self.path_advances(path, m - 1);
        }
        assert(self.steps(path, m - 1));
    }

    /// A boundary can be reached exactly when it lies after the first.
    proof fn reachable_when_later(self, rows: Seq<Row>, count: int, to: int, kind: SegmentKind)
        requires
            count <= rows.len() <= self.boundaries.len(),
            self.rows_ok(rows, count),
            1 <= to < count,
        ensures
            rows[to].spec_cell(kind).reachable <==> self.seconds(0, to) > 0,
    {
        let cell = rows[to].spec_cell(kind);
        assert(self.cell_ok(rows, cell, to, kind, to));
        if self.seconds(0, to) > 0 {
            assert(self.can_come(rows, 0, to, kind));
        }
        if cell.reachable {
            self.trace_is_path(rows, count, to, kind);
            let path = self.trace(rows, to, kind);
            self.path_advances(path, path.len() - 1);
        }
    }
}

impl Evidence {
    /// Walking back along `whole`, `done` segments are behind us and the
    /// next one ends at `to` under `kind`.
    spec fn has_walked(
        self,
        rows: Seq<Row>,
        whole: Seq<int>,
        end_kind: SegmentKind,
        to: int,
        kind: SegmentKind,
        done: int,
    ) -> bool {
        &&& 0 <= done < whole.len()
        &&& self.trace(rows, to, kind) == whole.take(whole.len() - done)
        &&& to > 0 ==> rows[to].spec_cell(kind).reachable
        &&& to > 0 ==> kind == self.kind_along(whole, end_kind, whole.len() - 2 - done)
    }

    /// One step back along a recorded path.
    proof fn step_back(
        self,
        rows: Seq<Row>,
        whole: Seq<int>,
        end_kind: SegmentKind,
        to: int,
        kind: SegmentKind,
        done: int,
    )
        requires
            rows.len() == self.boundaries.len(),
            self.rows_ok(rows, rows.len() as int),
            1 <= to < rows.len(),
            self.has_walked(rows, whole, end_kind, to, kind, done),
        ensures
            ({
                let from = rows[to].spec_cell(kind).from as int;
                &&& from < to
                &&& self.seconds(from, to) > 0
                &&& done + 2 <= whole.len()
                &&& whole[whole.len() - 1 - done] == to
                &&& whole[whole.len() - 2 - done] == from
                &&& kind == self.kind_along(whole, end_kind, whole.len() - 2 - done)
                &&& self.has_walked(rows, whole, end_kind, from, kind.spec_other(), done + 1)
            }),
    {
        let cell = rows[to].spec_cell(kind);
        assert(self.cell_ok(rows, cell, to, kind, to));
        let from = cell.from as int;
        let path = self.trace(rows, to, kind);
        let before = self.trace(rows, from, kind.spec_other());
        self.trace_is_path(rows, rows.len() as int, to, kind);
        assert(path == before.push(to));
        assert(path == whole.take(whole.len() - done));
        if from > 0 {
            self.trace_is_path(rows, rows.len() as int, from, kind.spec_other());
        } else {
            assert(before == seq![0int]);
        }
        assert(before.last() == from);
        assert(path[path.len() - 2] == from);
        assert(before =~= whole.take(whole.len() - done - 1));
    }
}

impl Evidence {
    /// A segment runs between its boundaries under its label, and is trusted
    /// between not at all and fully.
    pub(crate) proof fn segment_facts(self, from: int, to: int, kind: SegmentKind)
        requires
            self.wf(),
            0 <= from < self.boundaries.len(),
            0 <= to < self.boundaries.len(),
            self.seconds(from, to) > 0,
        ensures
            self.segment(from, to, kind).start == self.boundaries[from].at,
            self.segment(from, to, kind).end == self.boundaries[to].at,
            self.segment(from, to, kind).kind == kind,
            self.segment(from, to, kind).in_time(),
            0 <= self.segment(from, to, kind).confidence <= 1_000_000,
    {
        reveal(Evidence::segment);
        assert(0 <= self.boundaries[from].at <= TIME_LIMIT);
        assert(0 <= self.boundaries[to].at <= TIME_LIMIT);
        let seconds = self.seconds(from, to);
        let covered = self.covered(from, to);
        let share = match kind {
            SegmentKind::Programme => covered,
            SegmentKind::Commercial => seconds - covered,
        };
        let top = 450_000 * share;
        assert(0 <= (2 * top + seconds) / (2 * seconds) <= 450_000) by (nonlinear_arith)
            requires
                0 <= top <= 450_000 * seconds,
                seconds > 0,
        ;
    }

    /// Neighbouring segments along a path have different labels.
    pub(crate) proof fn kinds_differ(self, path: Seq<int>, kind: SegmentKind, m: int)
        requires
            1 <= m < path.len() - 1,
        ensures
            self.kind_along(path, kind, m - 1) != self.kind_along(path, kind, m),
    {
    }
}

/// What a segmentation of these boundaries is judged against.
pub open spec fn evidence(
    boundaries: Seq<Boundary>,
    coverage: Seq<i128>,
    logo_available: bool,
    options: CutOptions,
) -> Evidence {
    Evidence { boundaries, coverage, logo_available, options }
}

/// What switching label at a boundary is worth.
fn switch_score(boundary: &Boundary, options: &CutOptions) -> (score: i128)
    requires
        options.wf(),
    ensures
        score == boundary.spec_quality() * options.weights.boundary_bonus * 10_000
            - options.weights.switch_penalty * SECOND,
        -SCORE_LIMIT <= score <= SCORE_LIMIT,
{
    let quality: i128 = boundary.quality() as i128;
    let bonus: i128 = options.weights.boundary_bonus as i128;
    proof {
        assert(-100_000_000_000_000 <= quality * bonus <= 100_000_000_000_000) by (nonlinear_arith)
            requires
                0 <= quality <= 100,
                -1_000_000_000_000 <= bonus <= 1_000_000_000_000,
        ;
    }
    quality * bonus * 10_000 - options.weights.switch_penalty as i128 * 1_000_000
}

/// The best way to end at boundary `to` under a label.
fn best_cell(
    boundaries: &[Boundary],
    coverage: &LogoCoverage,
    logo_available: bool,
    options: &CutOptions,
    rows: &Vec<Row>,
    to: usize,
    kind: SegmentKind,
) -> (best: Cell)
    requires
        evidence(boundaries@, coverage.prefix@, logo_available, *options).wf(),
        1 <= to < boundaries@.len(),
        rows@.len() == to,
        evidence(boundaries@, coverage.prefix@, logo_available, *options).rows_ok(rows@, to as int),
    ensures
        evidence(boundaries@, coverage.prefix@, logo_available, *options).cell_ok(
            rows@,
            best,
            to as int,
            kind,
            to as int,
        ),
{
    let ghost e = evidence(boundaries@, coverage.prefix@, logo_available, *options);
    let mut best = Cell { score: 0, from: 0, reachable: false };
    for from in 0..to
        invariant
            e == evidence(boundaries@, coverage.prefix@, logo_available, *options),
            e.wf(),
            1 <= to < boundaries@.len(),
            rows@.len() == to,
            e.rows_ok(rows@, to as int),
            e.cell_ok(rows@, best, to as int, kind, from as int),
    {
        let ghost before = best;
        assert(0 <= boundaries@[from as int].at <= TIME_LIMIT);
        assert(0 <= boundaries@[to as int].at <= TIME_LIMIT);
        let seconds: i64 = boundaries[to].at - boundaries[from].at;
        let opposite = rows[from].cell(kind.other());
        assert(opposite == rows@[from as int].spec_cell(kind.spec_other()));
        if seconds > 0 && (from == 0 || opposite.reachable) {
            // Reaching `from` costs whatever the best segmentation ending
            // there with the opposite label cost, plus the price of the
            // boundary itself. The start of the recording is free.
            let previous: i128 = if from == 0 {
                0
            } else {
                assert(e.cell_ok(
                    rows@,
                    rows@[from as int].spec_cell(kind.spec_other()),
                    from as int,
                    kind.spec_other(),
                    from as int,
                ));
                opposite.score + switch_score(&boundaries[from], options)
            };
            let covered: i64 = coverage.covered(from, to, seconds);
            let score: i128 = previous + segment_score(
                seconds,
                covered,
                kind,
                logo_available,
                options,
            );
            assert(score == e.via(rows@, from as int, to as int, kind)) by {
                reveal(Evidence::worth);
                reveal(Evidence::switch);
            }
            assert(-score_room(to as int) <= score <= score_room(to as int));
            if !best.reachable || score > best.score {
                best = Cell { score, from, reachable: true };
            }
        }
        assert(e.can_come(rows@, from as int, to as int, kind) == (seconds > 0 && (from == 0
            || opposite.reachable)));
        assert forall|i: int|
            0 <= i < from + 1 && #[trigger] e.can_come(rows@, i, to as int, kind) implies best.reachable
            && e.via(rows@, i, to as int, kind) <= best.score && (e.via(rows@, i, to as int, kind)
            == best.score ==> best.from <= i) by {}
    }
    best
}

/// Find the highest-scoring segmentation.
///
/// The table is indexed by boundary and by the label of the segment ending
/// there. Adjacent segments always differ in label: two adjacent segments with
/// the same label are just one longer segment, so allowing them would add no
/// expressiveness and double the work.
///
/// There is no segmentation only where the last boundary does not lie after
/// the first.
pub fn solve(
    boundaries: &[Boundary],
    coverage: &LogoCoverage,
    logo_available: bool,
    options: &CutOptions,
) -> (result: Option<Vec<Segment>>)
    requires
        boundaries@.len() >= 1,
        evidence(boundaries@, coverage.prefix@, logo_available, *options).wf(),
    ensures
        match result {
            Some(segments) => evidence(
                boundaries@,
                coverage.prefix@,
                logo_available,
                *options,
            ).is_solution(segments@),
            None => true,
        },
        result is None <==> boundaries@.last().at <= boundaries@[0].at,
{
    let ghost e = evidence(boundaries@, coverage.prefix@, logo_available, *options);
    let n: usize = boundaries.len();
    let nowhere = Cell { score: 0, from: 0, reachable: false };
    let mut rows: Vec<Row> = Vec::new();
    rows.push(Row { programme: nowhere, commercial: nowhere });

    for to in 1..n
        invariant
            e == evidence(boundaries@, coverage.prefix@, logo_available, *options),
            e.wf(),
            n == boundaries@.len(),
            n >= 1,
            rows@.len() == to,
            e.rows_ok(rows@, to as int),
    {
        let programme = best_cell(
            boundaries,
            coverage,
            logo_available,
            options,
            &rows,
            to,
            SegmentKind::Programme,
        );
        let commercial = best_cell(
            boundaries,
            coverage,
            logo_available,
            options,
            &rows,
            to,
            SegmentKind::Commercial,
        );
        let row = Row { programme, commercial };
        let ghost before = rows@;
        rows.push(row);
        assert forall|t: int, kind: SegmentKind| 1 <= t < to + 1 implies e.cell_ok(
            rows@,
            #[trigger] rows@[t].spec_cell(kind),
            t,
            kind,
            t,
        ) by {
            if t < to {
                assert(rows@[t] == before[t]);
                e.cell_ok_push(before, row, before[t].spec_cell(kind), t, kind, t);
            } else {
                e.cell_ok_push(before, row, row.spec_cell(kind), t, kind, t);
            }
        }
    }
    if n < 2 {
        return None;
    }
    // Walk back from whichever label ends the recording better.
    let last = rows[n - 1];
    proof {
        e.reachable_when_later(rows@, n as int, n - 1, SegmentKind::Programme);
        e.reachable_when_later(rows@, n as int, n - 1, SegmentKind::Commercial);
    }
    if !last.programme.reachable {
        return None;
    }
    let end_kind = if last.programme.score < last.commercial.score {
        SegmentKind::Commercial
    } else {
        SegmentKind::Programme
    };
    let ghost whole = e.trace(rows@, n - 1, end_kind);
    proof {
        e.trace_is_path(rows@, n as int, n - 1, SegmentKind::Programme);
        e.trace_is_path(rows@, n as int, n - 1, SegmentKind::Commercial);
        assert forall|m: int| 0 <= m < whole.len() - 1 implies e.is_best(
            whole.take(m + 2),
            #[trigger] e.kind_along(whole, end_kind, m),
        ) by {
            e.trace_is_best_along(rows@, n as int, n - 1, end_kind, m);
        }
        assert forall|other: Seq<int>| #[trigger] e.is_path(other, n - 1) implies match end_kind {
            SegmentKind::Programme => e.path_score(other, SegmentKind::Commercial) <= e.path_score(
                whole,
                end_kind,
            ),
            SegmentKind::Commercial => e.path_score(other, SegmentKind::Programme) < e.path_score(
                whole,
                end_kind,
            ),
        } by {
            e.cell_is_best(rows@, n as int, n - 1, end_kind.spec_other(), other);
        }
        assert(e.is_chosen(whole, end_kind));
    }
    Some(walk_back(boundaries, coverage, logo_available, options, &rows, end_kind))
}

/// The labelled segment between two boundaries.
fn segment_between(
    boundaries: &[Boundary],
    coverage: &LogoCoverage,
    logo_available: bool,
    options: &CutOptions,
    from: usize,
    to: usize,
    kind: SegmentKind,
) -> (segment: Segment)
    requires
        evidence(boundaries@, coverage.prefix@, logo_available, *options).wf(),
        from < boundaries@.len(),
        to < boundaries@.len(),
        boundaries@[from as int].at < boundaries@[to as int].at,
    ensures
        segment == evidence(boundaries@, coverage.prefix@, logo_available, *options).segment(
            from as int,
            to as int,
            kind,
        ),
{
    reveal(Evidence::segment);
    assert(0 <= boundaries@[from as int].at <= TIME_LIMIT);
    assert(0 <= boundaries@[to as int].at <= TIME_LIMIT);
    let seconds: i64 = boundaries[to].at - boundaries[from].at;
    let covered: i64 = coverage.covered(from, to, seconds);
    let confidence: i64 = segment_confidence(
        seconds,
        covered,
        kind,
        &boundaries[from],
        &boundaries[to],
        logo_available,
        options,
    );
    Segment { start: boundaries[from].at, end: boundaries[to].at, kind, confidence }
}

/// Follow the table back from the last boundary to the first.
fn walk_back(
    boundaries: &[Boundary],
    coverage: &LogoCoverage,
    logo_available: bool,
    options: &CutOptions,
    rows: &Vec<Row>,
    end_kind: SegmentKind,
) -> (segments: Vec<Segment>)
    requires
        evidence(boundaries@, coverage.prefix@, logo_available, *options).wf(),
        boundaries@.len() >= 2,
        rows@.len() == boundaries@.len(),
        evidence(boundaries@, coverage.prefix@, logo_available, *options).rows_ok(
            rows@,
            rows@.len() as int,
        ),
        rows@.last().spec_cell(end_kind).reachable,
    ensures
        ({
            let e = evidence(boundaries@, coverage.prefix@, logo_available, *options);
            segments@ == e.segments_along(e.trace(rows@, rows@.len() - 1, end_kind), end_kind)
        }),
{
    let ghost e = evidence(boundaries@, coverage.prefix@, logo_available, *options);
    let n: usize = boundaries.len();
    let ghost whole = e.trace(rows@, n - 1, end_kind);
    proof {
        e.trace_is_path(rows@, n as int, n - 1, end_kind);
    }
    assert(whole.take(whole.len() as int) =~= whole);
    let ghost wanted = e.segments_along(whole, end_kind);
    let mut kind = end_kind;
    let mut backward: Vec<Segment> = Vec::new();
    let mut to: usize = n - 1;
    while to > 0
        invariant
            e == evidence(boundaries@, coverage.prefix@, logo_available, *options),
            e.wf(),
            n == boundaries@.len(),
            rows@.len() == n,
            e.rows_ok(rows@, n as int),
            to < n,
            wanted == e.segments_along(whole, end_kind),
            e.has_walked(rows@, whole, end_kind, to as int, kind, backward@.len() as int),
            forall|p: int|
                0 <= p < backward@.len() ==> #[trigger] backward@[p] == wanted[whole.len() - 2 - p],
        decreases to,
    {
        let ghost done = backward@.len() as int;
        proof {
            e.step_back(rows@, whole, end_kind, to as int, kind, done);
        }
        let from: usize = rows[to].cell(kind).from;
        let segment = segment_between(
            boundaries,
            coverage,
            logo_available,
            options,
            from,
            to,
            kind,
        );
        assert(segment == wanted[whole.len() - 2 - done]);
        backward.push(segment);
        to = from;
        kind = kind.other();
    }
    assert(e.trace(rows@, 0, kind) == seq![0int]);
    assert(whole.len() - backward@.len() == 1);
    let mut segments: Vec<Segment> = Vec::new();
    let count: usize = backward.len();
    for i in 0..count
        invariant
            count == backward@.len(),
            whole.len() == count + 1,
            wanted.len() == count,
            forall|p: int|
                0 <= p < backward@.len() ==> #[trigger] backward@[p] == wanted[whole.len() - 2 - p],
            segments@ =~= wanted.take(i as int),
    {
        assert(backward@[count - 1 - i] == wanted[i as int]);
        segments.push(backward[count - 1 - i]);
    }
    assert(segments@ =~= wanted);
    segments
}

} // verus!
