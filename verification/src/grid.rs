//! The collision index: a uniform grid whose cells list the terrain
//! segments that run through them.
//!
//! The grid works in whole cells. A terrain edge reaches it as one span per
//! grid row that the edge crosses: the row, and the columns of the two ends
//! of the stretch that the edge occupies in that row.

use vstd::prelude::*;

verus! {

/// The stretch of one grid row that one terrain segment occupies.
#[derive(Debug, Copy, Clone, PartialEq, Eq, Structural)]
pub struct Span {
    /// Index of the terrain segment.
    pub segment: u32,
    /// Grid row of the stretch.
    pub row: usize,
    /// Column of one end of the stretch.
    pub from: usize,
    /// Column of the other end; it may lie on either side of `from`.
    pub to: usize,
}

impl Span {
    /// Leftmost column of the stretch.
    pub open spec fn first(self) -> int {
        if self.from <= self.to {
            self.from as int
        } else {
            self.to as int
        }
    }

    /// Rightmost column of the stretch.
    pub open spec fn last(self) -> int {
        if self.from <= self.to {
            self.to as int
        } else {
            self.from as int
        }
    }

    /// Whether the stretch runs through the cell at `row` and `column`.
    pub open spec fn covers(self, row: int, column: int) -> bool {
        self.row == row && self.first() <= column <= self.last()
    }

    /// Whether the stretch lies inside a grid of the given size.
    pub open spec fn fits(self, width: int, height: int) -> bool {
        self.row < height && self.from < width && self.to < width
    }
}

impl Span {
    /// Whether the stretch lies inside a grid of `width` by `height`
    /// cells.
    pub fn lies_within(&self, width: usize, height: usize) -> (inside: bool)
        ensures
            inside == self.fits(width as int, height as int),
    {
        self.row < height && self.from < width && self.to < width
    }
}

/// The segments that `spans` put into the cell at `row` and `column`: one
/// entry for each span that covers the cell, in the order of the spans.
pub open spec fn registered(spans: Seq<Span>, row: int, column: int) -> Seq<u32>
    decreases spans.len(),
{
    if spans.len() == 0 {
        Seq::empty()
    } else if spans.last().covers(row, column) {
        registered(spans.drop_last(), row, column).push(spans.last().segment)
    } else {
        registered(spans.drop_last(), row, column)
    }
}

/// Mathematical model of [`Segments`].
pub struct Grid {
    /// Number of columns.
    pub width: nat,
    /// Number of rows.
    pub height: nat,
    /// The candidate list of every cell, row by row.
    pub cells: Seq<Seq<u32>>,
}

impl Grid {
    /// Whether `row` and `column` name a cell of the grid.
    pub open spec fn contains(self, row: int, column: int) -> bool {
        0 <= row < self.height && 0 <= column < self.width
    }

    /// The candidate list of the cell at `row` and `column`; empty outside
    /// the grid.
    pub open spec fn cell(self, row: int, column: int) -> Seq<u32> {
        if self.contains(row, column) {
            self.cells[row * self.width + column]
        } else {
            Seq::empty()
        }
    }

    /// Whether the grid holds exactly what `spans` put into it.
    pub open spec fn holds(self, spans: Seq<Span>) -> bool {
        forall|row: int, column: int|
            self.contains(row, column) ==> #[trigger] self.cell(row, column) == registered(
                spans,
                row,
                column,
            )
    }
}

/// The collision index.
pub struct Segments {
    width: usize,
    height: usize,
    table: Vec<Vec<u32>>,
    nothing: Vec<u32>,
}

impl View for Segments {
    type V = Grid;

    closed spec fn view(&self) -> Grid {
        Grid {
            width: self.width as nat,
            height: self.height as nat,
            cells: Seq::new(self.table@.len(), |i: int| self.table@[i]@),
        }
    }
}

/// The cells of one row follow each other, and rows do not overlap.
proof fn lemma_cell_index(width: int, height: int, row: int, column: int)
    requires
        0 <= row < height,
        0 <= column < width,
    ensures
        0 <= row * width + column < width * height,
        row * width + width <= width * height,
        row * width >= 0,
{
    assert(row * width >= 0) by (nonlinear_arith)
        requires
            row >= 0,
            width >= 0,
    ;
    assert(row * width + width <= width * height) by (nonlinear_arith)
        requires
            0 <= row < height,
            width >= 0,
    ;
}

/// Two cells share an index only if they are the same cell.
proof fn lemma_cell_index_injective(width: int, row: int, column: int, row2: int, column2: int)
    requires
        0 <= column < width,
        0 <= column2 < width,
        row * width + column == row2 * width + column2,
    ensures
        row == row2,
        column == column2,
{
    assert(row == row2) by (nonlinear_arith)
        requires
            0 <= column < width,
            0 <= column2 < width,
            row * width + column == row2 * width + column2,
    ;
}

impl Segments {
    #[verifier::type_invariant]
    spec fn well_formed(self) -> bool {
        &&& self.width * self.height <= usize::MAX
        &&& self.table@.len() == self.width * self.height
        &&& self.nothing@.len() == 0
    }

    /// Builds the index of a grid of `width` by `height` cells from the
    /// spans of all terrain segments.
    pub fn new(width: usize, height: usize, spans: &[Span]) -> (segments: Segments)
        requires
            width * height <= usize::MAX,
            forall|i: int| 0 <= i < spans@.len() ==> (#[trigger] spans@[i]).fits(
                width as int,
                height as int,
            ),
        ensures
            segments@.width == width,
            segments@.height == height,
            segments@.cells.len() == width * height,
            segments@.holds(spans@),
    {
        let cells = width * height;
        let mut table: Vec<Vec<u32>> = Vec::new();
        while table.len() < cells
            invariant
                table@.len() <= cells,
                forall|i: int| 0 <= i < table@.len() ==> (#[trigger] table@[i])@.len() == 0,
            decreases cells - table@.len(),
        {
            table.push(Vec::new());
        }
        let mut segments = Segments { width, height, table, nothing: Vec::new() };
        assert(segments@.holds(spans@.take(0))) by {
            assert forall|row: int, column: int| segments@.contains(row, column) implies (
            #[trigger] segments@.cell(row, column)) == registered(
                spans@.take(0),
                row,
                column,
            ) by {
                lemma_cell_index(width as int, height as int, row, column);
            }
        }
        let mut done: usize = 0;
        while done < spans.len()
            invariant
                done <= spans@.len(),
                segments@.width == width,
                segments@.height == height,
                segments@.cells.len() == width * height,
                segments@.holds(spans@.take(done as int)),
                forall|i: int| 0 <= i < spans@.len() ==> (#[trigger] spans@[i]).fits(
                    width as int,
                    height as int,
                ),
            decreases spans@.len() - done,
        {
            let ghost before = spans@.take(done as int);
            segments.register(spans[done], Ghost(before));
            assert(before.push(spans@[done as int]) == spans@.take(done as int + 1));
            done += 1;
        }
        assert(spans@.take(done as int) == spans@);
        segments
    }

    /// Puts `span` into every cell that it covers.
    fn register(&mut self, span: Span, Ghost(before): Ghost<Seq<Span>>)
        requires
            span.fits(old(self)@.width as int, old(self)@.height as int),
            old(self)@.cells.len() == old(self)@.width * old(self)@.height,
            old(self)@.holds(before),
        ensures
            final(self)@.width == old(self)@.width,
            final(self)@.height == old(self)@.height,
            final(self)@.cells.len() == old(self)@.cells.len(),
            final(self)@.holds(before.push(span)),
    {
        proof {
            use_type_invariant(&*self);
        }
        let first = if span.from <= span.to {
            span.from
        } else {
            span.to
        };
        let last = if span.from <= span.to {
            span.to
        } else {
            span.from
        };
        let ghost start = self@;
        let ghost spans = before.push(span);
        assert(spans.drop_last() == before);
        proof {
            lemma_cell_index(self.width as int, self.height as int, span.row as int, first as int);
            lemma_cell_index(self.width as int, self.height as int, span.row as int, last as int);
        }
        let base = span.row * self.width;
        let mut column = first;
        while column <= last
            invariant
                first <= column <= last + 1,
                last < self.width,
                span.row < self.height,
                base == span.row * self.width,
                base + self.width <= self.width * self.height,
                self.table@.len() == self.width * self.height,
                self.width * self.height <= usize::MAX,
                self.nothing@.len() == 0,
                self.width == start.width,
                self.height == start.height,
                self@.cells.len() == start.cells.len(),
                start.cells.len() == start.width * start.height,
                forall|row: int, other: int|
                    start.contains(row, other) ==> #[trigger] self@.cell(row, other) == if row
                        == span.row && first <= other < column {
                        start.cell(row, other).push(span.segment)
                    } else {
                        start.cell(row, other)
                    },
            decreases last + 1 - column,
        {
            let ghost previous = self@;
            let index = base + column;
            let mut list = Vec::new();
            std::mem::swap(&mut list, &mut self.table[index]);
            list.push(span.segment);
            self.table[index] = list;
            proof {
                assert forall|row: int, other: int| start.contains(row, other) implies (
                #[trigger] self@.cell(row, other)) == if row == span.row && first <= other
                    < column + 1 {
                    start.cell(row, other).push(span.segment)
                } else {
                    start.cell(row, other)
                } by {
                    lemma_cell_index(self.width as int, self.height as int, row, other);
                    assert(previous.cell(row, other) == previous.cells[row * self.width + other]);
                    if row * self.width + other == index {
                        lemma_cell_index_injective(
                            self.width as int,
                            row,
                            other,
                            span.row as int,
                            column as int,
                        );
                    }
                }
            }
            column += 1;
        }
        proof {
            assert forall|row: int, other: int| self@.contains(row, other) implies (
            #[trigger] self@.cell(row, other)) == registered(spans, row, other) by {
                assert(start.contains(row, other));
                assert(start.cell(row, other) == registered(before, row, other));
            }
        }
    }

    /// The candidate segments of the cell at `column` and `row`; none for a
    /// cell outside the grid.
    pub fn cell(&self, column: i64, row: i64) -> (candidates: &[u32])
        ensures
            candidates@ == self@.cell(row as int, column as int),
    {
        proof {
            use_type_invariant(self);
        }
        if column < 0 || row < 0 {
            return self.nothing.as_slice();
        }
        if column as u64 >= self.width as u64 || row as u64 >= self.height as u64 {
            return self.nothing.as_slice();
        }
        proof {
            lemma_cell_index(self.width as int, self.height as int, row as int, column as int);
        }
        let index = row as usize * self.width + column as usize;
        self.table[index].as_slice()
    }

    /// Number of columns.
    pub fn width(&self) -> (width: usize)
        ensures
            width == self@.width,
    {
        self.width
    }

    /// Number of rows.
    pub fn height(&self) -> (height: usize)
        ensures
            height == self@.height,
    {
        self.height
    }
}

/// What the index needs to know of one terrain polygon.
#[derive(Debug, Copy, Clone, PartialEq, Eq, Structural)]
pub struct Outline {
    /// Decorative polygons take no part in collisions.
    pub grass: bool,
    /// Number of vertices of the closed polygon.
    pub vertices: usize,
}

/// One terrain segment: the side of a polygon between two of its vertices.
#[derive(Debug, Copy, Clone, PartialEq, Eq, Structural)]
pub struct Edge {
    /// Index of the polygon.
    pub polygon: usize,
    /// Index of the vertex where the segment starts.
    pub from: usize,
    /// Index of the vertex where the segment ends.
    pub to: usize,
}

/// The sides of the closed polygon number `polygon` with `vertices`
/// vertices: the first one leads from the last vertex to the first, every
/// other one from a vertex to the next.
pub open spec fn polygon_edges(polygon: int, vertices: int) -> Seq<Edge> {
    Seq::new(
        vertices as nat,
        |to: int|
            Edge {
                polygon: polygon as usize,
                from: (if to == 0 {
                    vertices - 1
                } else {
                    to - 1
                }) as usize,
                to: to as usize,
            },
    )
}

/// The terrain segments of a level in the order of their indices: the
/// sides of every polygon that is not decorative, polygon after polygon.
pub open spec fn terrain_edges(polygons: Seq<Outline>) -> Seq<Edge>
    decreases polygons.len(),
{
    if polygons.len() == 0 {
        Seq::empty()
    } else if polygons.last().grass {
        terrain_edges(polygons.drop_last())
    } else {
        terrain_edges(polygons.drop_last()) + polygon_edges(
            polygons.len() - 1,
            polygons.last().vertices as int,
        )
    }
}

/// Lists the terrain segments of a level; the place of a segment in the
/// list is its index.
pub fn edges(polygons: &[Outline]) -> (segments: Vec<Edge>)
    ensures
        segments@ == terrain_edges(polygons@),
{
    let mut segments: Vec<Edge> = Vec::new();
    let mut polygon: usize = 0;
    while polygon < polygons.len()
        invariant
            polygon <= polygons@.len(),
            segments@ == terrain_edges(polygons@.take(polygon as int)),
        decreases polygons@.len() - polygon,
    {
        let outline = polygons[polygon];
        let ghost before = segments@;
        assert(polygons@.take(polygon as int + 1).drop_last() == polygons@.take(polygon as int));
        if !outline.grass {
            let mut to: usize = 0;
            while to < outline.vertices
                invariant
                    to <= outline.vertices,
                    segments@ == before + polygon_edges(
                        polygon as int,
                        outline.vertices as int,
                    ).take(to as int),
                decreases outline.vertices - to,
            {
                let from = if to == 0 {
                    outline.vertices - 1
                } else {
                    to - 1
                };
                segments.push(Edge { polygon, from, to });
                assert(polygon_edges(polygon as int, outline.vertices as int).take(to as int + 1)
                    == polygon_edges(polygon as int, outline.vertices as int).take(
                    to as int,
                ).push(Edge { polygon, from, to }));
                to += 1;
            }
            assert(polygon_edges(polygon as int, outline.vertices as int).take(to as int)
                == polygon_edges(polygon as int, outline.vertices as int));
        }
        polygon += 1;
    }
    assert(polygons@.take(polygon as int) == polygons@);
    segments
}

/// Every side of every polygon that is not decorative is a terrain
/// segment, and every terrain segment is such a side.
pub proof fn lemma_terrain_edges(polygons: Seq<Outline>, edge: Edge)
    requires
        polygons.len() <= usize::MAX,
    ensures
        terrain_edges(polygons).contains(edge) <==> (edge.polygon < polygons.len()
            && !polygons[edge.polygon as int].grass && edge.to < polygons[edge.polygon as int].vertices
            && edge.from == if edge.to == 0 {
            polygons[edge.polygon as int].vertices - 1
        } else {
            edge.to - 1
        }),
    decreases polygons.len(),
{
    if polygons.len() > 0 {
        let rest = polygons.drop_last();
        let last = polygons.len() - 1;
        lemma_terrain_edges(rest, edge);
        if edge.polygon < last {
            assert(rest[edge.polygon as int] == polygons[edge.polygon as int]);
        }
        if !polygons.last().grass {
            let sides = polygon_edges(last, polygons.last().vertices as int);
            let all = terrain_edges(rest) + sides;
            if terrain_edges(rest).contains(edge) {
                let k = choose|k: int| 0 <= k < terrain_edges(rest).len() && terrain_edges(rest)[k] == edge;
                assert(all[k] == edge);
            }
            if edge.polygon == last && edge.to < polygons.last().vertices && edge.from == (if edge.to
                == 0 {
                polygons.last().vertices - 1
            } else {
                edge.to - 1
            }) {
                assert(sides[edge.to as int] == edge);
                assert(all[terrain_edges(rest).len() + edge.to] == edge);
            }
            if all.contains(edge) {
                let k = choose|k: int| 0 <= k < all.len() && all[k] == edge;
                if k < terrain_edges(rest).len() {
                    assert(terrain_edges(rest)[k] == edge);
                } else {
                    assert(sides[k - terrain_edges(rest).len()] == edge);
                }
            }
        }
    }
}

/// A cell lists the segment of every span that covers it.
pub proof fn lemma_registered_complete(spans: Seq<Span>, k: int, row: int, column: int)
    requires
        0 <= k < spans.len(),
        spans[k].covers(row, column),
    ensures
        registered(spans, row, column).contains(spans[k].segment),
    decreases spans.len(),
{
    let rest = registered(spans.drop_last(), row, column);
    if k == spans.len() - 1 {
        assert(rest.push(spans.last().segment).last() == spans[k].segment);
    } else {
        lemma_registered_complete(spans.drop_last(), k, row, column);
        let at = choose|at: int| 0 <= at < rest.len() && rest[at] == spans[k].segment;
        if spans.last().covers(row, column) {
            assert(rest.push(spans.last().segment)[at] == spans[k].segment);
        }
    }
}

/// A cell lists nothing but the segments of spans that cover it.
pub proof fn lemma_registered_exact(spans: Seq<Span>, segment: u32, row: int, column: int)
    requires
        registered(spans, row, column).contains(segment),
    ensures
        exists|k: int|
            0 <= k < spans.len() && (#[trigger] spans[k]).covers(row, column) && spans[k].segment
                == segment,
    decreases spans.len(),
{
    if spans.len() > 0 {
        let rest = registered(spans.drop_last(), row, column);
        let listed = registered(spans, row, column);
        let at = choose|at: int| 0 <= at < listed.len() && listed[at] == segment;
        if spans.last().covers(row, column) && at == rest.len() {
            assert(spans[spans.len() - 1].covers(row, column));
        } else {
            assert(rest[at] == segment);
            lemma_registered_exact(spans.drop_last(), segment, row, column);
            let k = choose|k: int|
                0 <= k < spans.drop_last().len() && (#[trigger] spans.drop_last()[k]).covers(
                    row,
                    column,
                ) && spans.drop_last()[k].segment == segment;
            assert(spans[k].covers(row, column));
        }
    }
}

/// Grid completeness: in a grid built from `spans`, the query of a cell
/// inside the grid returns every segment that has a span through that
/// cell.
pub proof fn lemma_grid_completeness(grid: Grid, spans: Seq<Span>, k: int, row: int, column: int)
    requires
        grid.holds(spans),
        grid.contains(row, column),
        0 <= k < spans.len(),
        spans[k].covers(row, column),
    ensures
        grid.cell(row, column).contains(spans[k].segment),
{
    lemma_registered_complete(spans, k, row, column);
}

/// A query outside the grid returns nothing.
pub proof fn lemma_nothing_outside(grid: Grid, row: int, column: int)
    requires
        !grid.contains(row, column),
    ensures
        grid.cell(row, column).len() == 0,
{
}

} // verus!
