//! The hazard proximity grid: square cells over a bin that remember how close their
//! centers are to the nearest hazard.

use vstd::prelude::*;
use crate::collision_detection::hazard::{all_wf, hazard_views, Hazard, HazardView};
use crate::collision_detection::hazard_entity::HazardEntity;
use crate::collision_detection::hp_cell::{
    all_active_forbid_inside,
    closest_quality_zone,
    closest_static,
    lemma_deregistration_keeps_track,
    lemma_registration_keeps_track,
    lemma_tracks_same_active,
    registered,
    HPCell,
    HPCellUpdate,
    HPCellView,
};
use crate::collision_detection::proximity::Proximity;
use crate::error::CDEError;
use crate::geometry::aa_rectangle::AARectangle;
use crate::geometry::numeric::{
    floor_sqrt,
    integer_sqrt,
    lemma_division_brackets,
    lemma_floor_sqrt_monotone,
    lemma_floor_sqrt_of_square,
    lemma_product_bound,
    lemma_product_monotone,
    lemma_product_step,
};
use crate::geometry::point::{Point, MAX_COORD};
use crate::N_QUALITIES;

verus! {

/// Largest number of cells of a grid.
pub const MAX_CELLS: u64 = 0x0100_0000;

/// The side of the cells of a grid of about `n_cells_target` cells over `bbox`: the
/// root of the area that each cell is to cover, rounded down, and at least one.
pub open spec fn spec_cell_size(bbox: AARectangle, n_cells_target: usize) -> int {
    let side = floor_sqrt((bbox.spec_width() * bbox.spec_height()) / (n_cells_target as int));
    if side < 1 {
        1
    } else {
        side
    }
}

/// The number of cells of side `cell_size` that it takes to span `length`.
pub open spec fn spec_cells_along(length: int, cell_size: int) -> int {
    (length + cell_size - 1) / cell_size
}

/// A grid of about `n_cells_target` cells can be laid over `bbox`: the box has an
/// area, a cell is asked for, there are at most `MAX_CELLS` cells, and they stay
/// within coordinate range.
pub open spec fn grid_fits(bbox: AARectangle, n_cells_target: usize) -> bool {
    let size = spec_cell_size(bbox, n_cells_target);
    let n_cols = spec_cells_along(bbox.spec_width(), size);
    let n_rows = spec_cells_along(bbox.spec_height(), size);
    &&& bbox.wf()
    &&& bbox.spec_width() >= 1
    &&& bbox.spec_height() >= 1
    &&& n_cells_target >= 1
    &&& n_cols * n_rows <= MAX_CELLS
    &&& bbox.x_min + n_cols * size <= MAX_COORD
    &&& bbox.y_min + n_rows * size <= MAX_COORD
}

/// What a grid holds, as mathematical values.
pub struct HPGridView {
    pub bbox: AARectangle,
    pub cell_size: u64,
    pub n_cols: usize,
    pub n_rows: usize,
    /// The cells, row by row, from the lowest `y` and within a row from the lowest `x`.
    pub cells: Seq<HPCellView>,
}

impl HPGridView {
    /// The square that the cell in the given row and column covers.
    pub open spec fn tile(self, row: int, col: int) -> AARectangle {
        AARectangle {
            x_min: (self.bbox.x_min + col * self.cell_size) as i64,
            y_min: (self.bbox.y_min + row * self.cell_size) as i64,
            x_max: (self.bbox.x_min + (col + 1) * self.cell_size) as i64,
            y_max: (self.bbox.y_min + (row + 1) * self.cell_size) as i64,
        }
    }

    /// The squares of the cells tile the bounding box, row by row.
    pub open spec fn wf(self) -> bool {
        &&& self.bbox.wf()
        &&& self.cell_size >= 1
        &&& self.n_cols >= 1
        &&& self.n_rows >= 1
        &&& self.cells.len() == self.n_rows * self.n_cols
        &&& self.cells.len() <= MAX_CELLS
        &&& self.bbox.x_max <= self.bbox.x_min + self.n_cols * self.cell_size <= MAX_COORD
        &&& self.bbox.y_max <= self.bbox.y_min + self.n_rows * self.cell_size <= MAX_COORD
        &&& forall|i: int|
            0 <= i < self.cells.len() ==> (#[trigger] self.cells[i]).wf() && self.cells[i].bbox
                == self.tile(i / (self.n_cols as int), i % (self.n_cols as int))
    }

    /// The radius of a cell: half the diagonal of a square of the cell size, rounded up.
    pub open spec fn cell_radius(self) -> int {
        (AARectangle {
            x_min: 0,
            y_min: 0,
            x_max: self.cell_size as i64,
            y_max: self.cell_size as i64,
        }).spec_half_diagonal()
    }

    /// The column of the cell that owns the abscissa `x`; the nearest column where `x`
    /// lies beside the grid.
    pub open spec fn column_of(self, x: int) -> int {
        let c = (x - self.bbox.x_min) / (self.cell_size as int);
        if c < 0 {
            0
        } else if c >= self.n_cols {
            self.n_cols - 1
        } else {
            c
        }
    }

    /// The row of the cell that owns the ordinate `y`; the nearest row where `y` lies
    /// below or above the grid.
    pub open spec fn row_of(self, y: int) -> int {
        let r = (y - self.bbox.y_min) / (self.cell_size as int);
        if r < 0 {
            0
        } else if r >= self.n_rows {
            self.n_rows - 1
        } else {
            r
        }
    }

    /// The place among the cells of the cell that owns `p`.
    pub open spec fn index_of(self, p: Point) -> int {
        self.row_of(p.1 as int) * self.n_cols + self.column_of(p.0 as int)
    }

    /// Every cell knows its closest static hazard and the closest quality zone of
    /// each class among `hazards`, and nothing of any dynamic hazard.
    pub open spec fn built_from(self, hazards: Seq<HazardView>) -> bool {
        forall|i: int|
            0 <= i < self.cells.len() ==> {
                let cell = #[trigger] self.cells[i];
                &&& cell.static_uni_haz_prox == closest_static(
                    hazards,
                    cell.centroid,
                    hazards.len() as int,
                )
                &&& forall|q: int|
                    0 <= q < N_QUALITIES ==> #[trigger] cell.qz_haz_prox[q] == closest_quality_zone(
                        hazards,
                        q,
                        cell.centroid,
                        hazards.len() as int,
                    )
            }
    }

    /// Every cell accounts for the active hazards of `dynamic`.
    pub open spec fn tracks(self, dynamic: Seq<HazardView>) -> bool {
        forall|i: int| 0 <= i < self.cells.len() ==> (#[trigger] self.cells[i]).tracks(dynamic)
    }

    /// `other` has the same cells but for their closest universal hazards.
    pub open spec fn same_frame(self, other: HPGridView) -> bool {
        &&& self.bbox == other.bbox
        &&& self.cell_size == other.cell_size
        &&& self.n_cols == other.n_cols
        &&& self.n_rows == other.n_rows
        &&& self.cells.len() == other.cells.len()
        &&& forall|i: int|
            0 <= i < self.cells.len() ==> (#[trigger] self.cells[i]) == (HPCellView {
                uni_haz_prox: self.cells[i].uni_haz_prox,
                ..other.cells[i]
            })
    }
}

/// `after` is the grid `before` once every cell has accounted for the active hazards
/// of `added`.
pub open spec fn grid_registered(before: HPGridView, after: HPGridView, added: Seq<HazardView>) -> bool {
    &&& after.same_frame(before)
    &&& forall|i: int|
        0 <= i < before.cells.len() ==> registered(
            (#[trigger] before.cells[i]).uni_haz_prox,
            after.cells[i].uni_haz_prox,
            added,
            before.cells[i].centroid,
        )
}

/// `after` is the grid `before` once every cell has forgotten the entities of
/// `named`: a cell whose closest hazard was among them accounts for its static
/// hazards and the active hazards of `remaining`, the other cells are as before.
pub open spec fn grid_deregistered(
    before: HPGridView,
    after: HPGridView,
    named: Seq<HazardEntity>,
    remaining: Seq<HazardView>,
) -> bool {
    &&& after.same_frame(before)
    &&& forall|i: int|
        0 <= i < before.cells.len() ==> if named.contains(
            (#[trigger] before.cells[i]).uni_haz_prox.1,
        ) {
            registered(
                before.cells[i].static_uni_haz_prox,
                after.cells[i].uni_haz_prox,
                remaining,
                before.cells[i].centroid,
            )
        } else {
            after.cells[i] == before.cells[i]
        }
}

/// The views of a sequence of cells, in the same order.
pub open spec fn cell_views(cells: Seq<HPCell>) -> Seq<HPCellView> {
    Seq::new(cells.len(), |i: int| cells[i]@)
}

/// `indices` lists in ascending order the places `i` below `k` at which `marked` holds.
pub open spec fn lists_marked(indices: Seq<usize>, marked: spec_fn(int) -> bool, k: int) -> bool {
    &&& forall|a: int| 0 <= a < indices.len() ==> 0 <= (#[trigger] indices[a]) < k && marked(
        indices[a] as int,
    )
    &&& forall|a: int, b: int| 0 <= a < b < indices.len() ==> indices[a] < indices[b]
    &&& forall|i: int| 0 <= i < k && #[trigger] marked(i) ==> indices.contains(i as usize)
}

/// A grid of hazard proximity cells over a bin.
#[derive(Debug)]
pub struct HazardProximityGrid {
    bbox: AARectangle,
    cell_size: u64,
    n_cols: usize,
    n_rows: usize,
    cells: Vec<HPCell>,
}

impl View for HazardProximityGrid {
    type V = HPGridView;

    closed spec fn view(&self) -> HPGridView {
        HPGridView {
            bbox: self.bbox,
            cell_size: self.cell_size,
            n_cols: self.n_cols,
            n_rows: self.n_rows,
            cells: cell_views(self.cells@),
        }
    }
}

impl Clone for HazardProximityGrid {
    /// A copy that holds the same cells.
    fn clone(&self) -> (r: HazardProximityGrid)
        ensures
            r@ == self@,
    {
        let mut cells: Vec<HPCell> = Vec::new();
        let mut i: usize = 0;
        while i < self.cells.len()
            invariant
                0 <= i <= self.cells@.len(),
                cells@.len() == i,
                forall|j: int| 0 <= j < i ==> (#[trigger] cells@[j])@ == self.cells@[j]@,
            decreases self.cells@.len() - i,
        {
            cells.push(self.cells[i].clone());
            i += 1;
        }
        assert(cell_views(cells@) =~= cell_views(self.cells@));
        HazardProximityGrid {
            bbox: self.bbox,
            cell_size: self.cell_size,
            n_cols: self.n_cols,
            n_rows: self.n_rows,
            cells,
        }
    }
}

impl HazardProximityGrid {
    pub open spec fn wf(&self) -> bool {
        self@.wf()
    }

    /// The grid of about `n_cells_target` square cells over `bbox`, in a bin with the
    /// given static hazards. It is refused where no such grid can be laid.
    pub fn new(bbox: AARectangle, static_hazards: &[Hazard], n_cells_target: usize) -> (r: Result<
        HazardProximityGrid,
        CDEError,
    >)
        requires
            all_wf(hazard_views(static_hazards@)),
            forall|i: int|
                0 <= i < static_hazards@.len() ==> !(#[trigger] static_hazards@[i])@.entity.spec_dynamic(),
        ensures
            r.is_ok() == grid_fits(bbox, n_cells_target),
            r.is_err() ==> r.unwrap_err() == CDEError::InvalidInput,
            r.is_ok() ==> {
                let grid = r.unwrap()@;
                &&& grid.wf()
                &&& grid.bbox == bbox
                &&& grid.cell_size == spec_cell_size(bbox, n_cells_target)
                &&& grid.n_cols == spec_cells_along(bbox.spec_width(), grid.cell_size as int)
                &&& grid.n_rows == spec_cells_along(bbox.spec_height(), grid.cell_size as int)
                &&& grid.built_from(hazard_views(static_hazards@))
                &&& grid.tracks(Seq::empty())
            },
    {
        if !bbox.is_valid() || n_cells_target == 0 {
            return Err(CDEError::InvalidInput);
        }
        let width: u64 = bbox.width();
        let height: u64 = bbox.height();
        if width == 0 || height == 0 {
            return Err(CDEError::InvalidInput);
        }
        proof {
            lemma_product_bound(width as int, height as int, 0x8000_0000, 0x8000_0000);
            lemma_product_monotone(1, 1, width as int, height as int);
            lemma_division_brackets((width * height) as int, n_cells_target as int);
        }
        let area: u64 = width * height;
        let per_cell: u64 = area / (n_cells_target as u64);
        let side: u64 = integer_sqrt(per_cell);
        let cell_size: u64 = if side < 1 {
            1
        } else {
            side
        };
        proof {
            lemma_product_monotone(per_cell as int, 1, per_cell as int, n_cells_target as int);
            lemma_floor_sqrt_monotone(per_cell as int, 0x4000_0000_0000_0000);
            lemma_floor_sqrt_of_square(0x8000_0000);
            assert(cell_size <= 0x8000_0000);
        }
        let n_cols: u64 = (width + cell_size - 1) / cell_size;
        let n_rows: u64 = (height + cell_size - 1) / cell_size;
        proof {
            lemma_division_brackets((width + cell_size - 1) as int, cell_size as int);
            lemma_division_brackets((height + cell_size - 1) as int, cell_size as int);
            lemma_product_step(n_cols as int, cell_size as int);
            lemma_product_step(n_rows as int, cell_size as int);
            assert(n_cols >= 1) by (nonlinear_arith)
                requires
                    n_cols * cell_size + cell_size > width + cell_size - 1,
                    width >= 1,
                    n_cols >= 0,
            ;
            assert(n_rows >= 1) by (nonlinear_arith)
                requires
                    n_rows * cell_size + cell_size > height + cell_size - 1,
                    height >= 1,
                    n_rows >= 0,
            ;
            lemma_product_monotone(n_cols as int, 1, n_cols as int, cell_size as int);
            lemma_product_monotone(n_rows as int, 1, n_rows as int, cell_size as int);
            lemma_product_bound(n_cols as int, n_rows as int, 0xffff_ffff, 0xffff_ffff);
        }
        if n_cols * n_rows > MAX_CELLS {
            return Err(CDEError::InvalidInput);
        }
        let span_x: u64 = n_cols * cell_size;
        let span_y: u64 = n_rows * cell_size;
        if bbox.x_min + span_x as i64 > MAX_COORD || bbox.y_min + span_y as i64 > MAX_COORD {
            return Err(CDEError::InvalidInput);
        }
        proof {
            lemma_product_monotone(n_cols as int, 1, n_cols as int, n_rows as int);
            lemma_product_monotone(1, n_rows as int, n_cols as int, n_rows as int);
        }
        let ghost frame = HPGridView {
            bbox,
            cell_size,
            n_cols: n_cols as usize,
            n_rows: n_rows as usize,
            cells: Seq::empty(),
        };
        let ghost statics = hazard_views(static_hazards@);
        let mut cells: Vec<HPCell> = Vec::new();
        let mut row: u64 = 0;
        while row < n_rows
            invariant
                0 <= row <= n_rows,
                1 <= n_cols,
                1 <= n_rows,
                1 <= cell_size,
                n_cols * n_rows <= MAX_CELLS,
                bbox.wf(),
                span_x == n_cols * cell_size,
                span_y == n_rows * cell_size,
                bbox.x_min + span_x <= MAX_COORD,
                bbox.y_min + span_y <= MAX_COORD,
                frame == (HPGridView {
                    bbox,
                    cell_size,
                    n_cols: n_cols as usize,
                    n_rows: n_rows as usize,
                    cells: Seq::empty(),
                }),
                statics == hazard_views(static_hazards@),
                all_wf(statics),
                forall|i: int|
                    0 <= i < static_hazards@.len() ==> !(#[trigger] static_hazards@[i])@.entity.spec_dynamic(),
                cells@.len() == row * n_cols,
                forall|i: int|
                    0 <= i < cells@.len() ==> cell_built(
                        (#[trigger] cells@[i])@,
                        frame.tile(i / (n_cols as int), i % (n_cols as int)),
                        statics,
                    ),
            decreases n_rows - row,
        {
            let mut col: u64 = 0;
            proof {
                lemma_product_monotone(row as int + 1, cell_size as int, n_rows as int, cell_size as int);
                lemma_product_step(row as int, cell_size as int);
                lemma_product_monotone(0, 0, row as int, cell_size as int);
                lemma_product_step(row as int, n_cols as int);
                lemma_product_monotone(row as int + 1, n_cols as int, n_rows as int, n_cols as int);
                assert(n_rows * n_cols == n_cols * n_rows) by (nonlinear_arith);
            }
            let y_min: i64 = bbox.y_min + (row * cell_size) as i64;
            let y_max: i64 = y_min + cell_size as i64;
            while col < n_cols
                invariant
                    0 <= col <= n_cols,
                    0 <= row < n_rows,
                    1 <= n_cols,
                    1 <= cell_size,
                    bbox.wf(),
                    span_x == n_cols * cell_size,
                    bbox.x_min + span_x <= MAX_COORD,
                    (row + 1) * n_cols <= MAX_CELLS,
                    (row + 1) * n_cols == row * n_cols + n_cols,
                    y_min == bbox.y_min + row * cell_size,
                    y_max == bbox.y_min + (row + 1) * cell_size,
                    bbox.y_min <= y_min < y_max <= MAX_COORD,
                    frame == (HPGridView {
                        bbox,
                        cell_size,
                        n_cols: n_cols as usize,
                        n_rows: n_rows as usize,
                        cells: Seq::empty(),
                    }),
                    statics == hazard_views(static_hazards@),
                    all_wf(statics),
                    forall|i: int|
                        0 <= i < static_hazards@.len() ==> !(#[trigger] static_hazards@[i])@.entity.spec_dynamic(),
                    cells@.len() == row * n_cols + col,
                    forall|i: int|
                        0 <= i < cells@.len() ==> cell_built(
                            (#[trigger] cells@[i])@,
                            frame.tile(i / (n_cols as int), i % (n_cols as int)),
                            statics,
                        ),
                decreases n_cols - col,
            {
                proof {
                    lemma_product_monotone(col as int + 1, cell_size as int, n_cols as int, cell_size as int);
                    lemma_product_step(col as int, cell_size as int);
                    lemma_product_monotone(0, 0, col as int, cell_size as int);
                }
                let x_min: i64 = bbox.x_min + (col * cell_size) as i64;
                let x_max: i64 = x_min + cell_size as i64;
                let tile = AARectangle { x_min, y_min, x_max, y_max };
                let cell: HPCell = HPCell::new(tile, static_hazards);
                let ghost before = cells@;
                cells.push(cell);
                proof {
                    let index = before.len() as int;
                    vstd::arithmetic::div_mod::lemma_fundamental_div_mod_converse(
                        index,
                        n_cols as int,
                        row as int,
                        col as int,
                    );
                    assert(tile == frame.tile(row as int, col as int));
                    assert forall|i: int| 0 <= i < cells@.len() implies cell_built(
                        (#[trigger] cells@[i])@,
                        frame.tile(i / (n_cols as int), i % (n_cols as int)),
                        statics,
                    ) by {
                        if i < index {
                            assert(cells@[i] == before[i]);
                        }
                    }
                }
                col += 1;
            }
            row += 1;
        }
        let grid = HazardProximityGrid {
            bbox,
            cell_size,
            n_cols: n_cols as usize,
            n_rows: n_rows as usize,
            cells,
        };
        proof {
            assert(n_rows * n_cols == n_cols * n_rows) by (nonlinear_arith);
            assert(grid@.cells.len() == grid@.n_rows * grid@.n_cols);
            assert forall|i: int| 0 <= i < grid@.cells.len() implies (#[trigger] grid@.cells[i]).wf()
                && grid@.cells[i].bbox == grid@.tile(
                i / (grid@.n_cols as int),
                i % (grid@.n_cols as int),
            ) && grid@.cells[i].tracks(Seq::empty()) by {
                assert(cell_built(
                    grid.cells@[i]@,
                    frame.tile(i / (n_cols as int), i % (n_cols as int)),
                    statics,
                ));
            }
            assert(grid@.built_from(statics)) by {
                assert forall|i: int| 0 <= i < grid@.cells.len() implies {
                    let cell = #[trigger] grid@.cells[i];
                    &&& cell.static_uni_haz_prox == closest_static(
                        statics,
                        cell.centroid,
                        statics.len() as int,
                    )
                    &&& forall|q: int|
                        0 <= q < N_QUALITIES ==> #[trigger] cell.qz_haz_prox[q]
                            == closest_quality_zone(statics, q, cell.centroid, statics.len() as int)
                } by {
                    assert(cell_built(
                        grid.cells@[i]@,
                        frame.tile(i / (n_cols as int), i % (n_cols as int)),
                        statics,
                    ));
                }
            }
        }
        Ok(grid)
    }

    /// The bounding box of the bin.
    pub fn bbox(&self) -> (r: AARectangle)
        ensures
            r == self@.bbox,
    {
        self.bbox
    }

    /// The side of a cell.
    pub fn cell_size(&self) -> (r: u64)
        ensures
            r == self@.cell_size,
    {
        self.cell_size
    }

    pub fn n_cols(&self) -> (r: usize)
        ensures
            r == self@.n_cols,
    {
        self.n_cols
    }

    pub fn n_rows(&self) -> (r: usize)
        ensures
            r == self@.n_rows,
    {
        self.n_rows
    }

    /// The cells, row by row.
    pub fn cells(&self) -> (r: &Vec<HPCell>)
        ensures
            cell_views(r@) == self@.cells,
    {
        &self.cells
    }

    /// The radius of the cells, which is the same for all.
    pub fn cell_radius(&self) -> (r: u64)
        requires
            self.wf(),
        ensures
            r as int == self@.cell_radius(),
            forall|i: int| 0 <= i < self@.cells.len() ==> (#[trigger] self@.cells[i]).radius == r,
    {
        proof {
            lemma_product_monotone(1, 1, self.n_rows as int, self.n_cols as int);
            lemma_product_monotone(1, self.cell_size as int, self.n_cols as int, self.cell_size as int);
            lemma_tiles_are_squares(self@, 0);
            let tile = self@.cells[0].bbox;
            let square = AARectangle {
                x_min: 0,
                y_min: 0,
                x_max: self.cell_size as i64,
                y_max: self.cell_size as i64,
            };
            assert(tile.spec_width() == square.spec_width());
            assert(tile.spec_height() == square.spec_height());
            assert(tile.spec_half_diagonal() == square.spec_half_diagonal());
            assert(self@.cells[0] == self.cells@[0]@);
            assert forall|i: int| 0 <= i < self@.cells.len() implies (#[trigger] self@.cells[i]).radius
                == self@.cells[0].radius by {
                lemma_tiles_are_squares(self@, i);
                lemma_tiles_are_squares(self@, 0);
            }
        }
        self.cells[0].radius()
    }

    /// The place among the cells of the cell that owns `p`: the cell whose square
    /// holds `p`, or the nearest cell where `p` lies beside the grid.
    pub fn cell_index(&self, p: &Point) -> (r: usize)
        requires
            self.wf(),
        ensures
            r as int == self@.index_of(*p),
            r < self@.cells.len(),
            self@.bbox.spec_contains(*p) ==> self@.cells[r as int].bbox.spec_contains(*p),
    {
        let dx: i128 = p.0 as i128 - self.bbox.x_min as i128;
        let dy: i128 = p.1 as i128 - self.bbox.y_min as i128;
        let size: i128 = self.cell_size as i128;
        let col: usize = if dx < 0 {
            0
        } else {
            let c: i128 = dx / size;
            if c >= self.n_cols as i128 {
                self.n_cols - 1
            } else {
                c as usize
            }
        };
        let row: usize = if dy < 0 {
            0
        } else {
            let r: i128 = dy / size;
            if r >= self.n_rows as i128 {
                self.n_rows - 1
            } else {
                r as usize
            }
        };
        proof {
            if dx >= 0 {
                lemma_division_brackets(dx as int, size as int);
            } else {
                lemma_negative_quotient(dx as int, size as int);
            }
            if dy >= 0 {
                lemma_division_brackets(dy as int, size as int);
            } else {
                lemma_negative_quotient(dy as int, size as int);
            }
            lemma_product_step(row as int, self.n_cols as int);
            lemma_product_monotone(row as int + 1, self.n_cols as int, self.n_rows as int, self.n_cols as int);
            lemma_product_monotone(0, 0, row as int, self.n_cols as int);
            let index = row * self.n_cols + col;
            vstd::arithmetic::div_mod::lemma_fundamental_div_mod_converse(
                index,
                self.n_cols as int,
                row as int,
                col as int,
            );
            assert(self@.cells[index].bbox == self@.tile(row as int, col as int));
            if self@.bbox.spec_contains(*p) {
                lemma_product_step(col as int, size as int);
                lemma_product_step(row as int, size as int);
                lemma_product_step(self.n_cols - 1, size as int);
                lemma_product_step(self.n_rows - 1, size as int);
                if dx / size >= self.n_cols {
                    lemma_product_monotone(self.n_cols as int, size as int, (dx / size) as int, size as int);
                }
                if dy / size >= self.n_rows {
                    lemma_product_monotone(self.n_rows as int, size as int, (dy / size) as int, size as int);
                }
            }
        }
        row * self.n_cols + col
    }

    /// The cell that owns `p`.
    pub fn query(&self, p: &Point) -> (r: &HPCell)
        requires
            self.wf(),
        ensures
            r@ == self@.cells[self@.index_of(*p)],
            self@.bbox.spec_contains(*p) ==> r@.bbox.spec_contains(*p),
    {
        let index: usize = self.cell_index(p);
        assert(self@.cells[index as int] == self.cells@[index as int]@);
        &self.cells[index]
    }

    /// Accounts in every cell for the active hazards of `hazards`, all of which forbid
    /// their inside. Returns the places of the cells whose closest hazard changed.
    pub fn register(&mut self, hazards: &[Hazard]) -> (affected: Vec<usize>)
        requires
            old(self).wf(),
            all_wf(hazard_views(hazards@)),
            all_active_forbid_inside(hazard_views(hazards@)),
        ensures
            final(self).wf(),
            grid_registered(old(self)@, final(self)@, hazard_views(hazards@)),
            lists_marked(
                affected@,
                |i: int| final(self)@.cells[i].uni_haz_prox != old(self)@.cells[i].uni_haz_prox,
                old(self)@.cells.len() as int,
            ),
    {
        let ghost views = hazard_views(hazards@);
        let mut affected: Vec<usize> = Vec::new();
        let n: usize = self.cells.len();
        let mut i: usize = 0;
        while i < n
            invariant
                0 <= i <= n,
                n == self.cells@.len(),
                n == old(self)@.cells.len(),
                views == hazard_views(hazards@),
                all_wf(views),
                all_active_forbid_inside(views),
                old(self)@.wf(),
                self@.same_frame(old(self)@),
                forall|j: int| 0 <= j < n ==> (#[trigger] self@.cells[j]).wf(),
                forall|j: int| i <= j < n ==> (#[trigger] self@.cells[j]) == old(self)@.cells[j],
                forall|j: int|
                    0 <= j < i ==> registered(
                        (#[trigger] old(self)@.cells[j]).uni_haz_prox,
                        self@.cells[j].uni_haz_prox,
                        views,
                        old(self)@.cells[j].centroid,
                    ),
                lists_marked(
                    affected@,
                    |k: int| self@.cells[k].uni_haz_prox != old(self)@.cells[k].uni_haz_prox,
                    i as int,
                ),
            decreases n - i,
        {
            let ghost grid_before = self@;
            let ghost listed_before = affected@;
            assert(self@.cells[i as int] == self.cells@[i as int]@);
            let before: Proximity = self.cells[i].universal_hazard_proximity().0;
            self.cells[i].register_hazards(hazards);
            let after: Proximity = self.cells[i].universal_hazard_proximity().0;
            proof {
                assert(self@.cells[i as int] == self.cells@[i as int]@);
                assert forall|j: int| 0 <= j < n && j != i implies #[trigger] self@.cells[j]
                    == grid_before.cells[j] by {
                    assert(self.cells@[j]@ == grid_before.cells[j]);
                }
            }
            if after != before {
                affected.push(i);
            }
            proof {
                let now = |k: int| self@.cells[k].uni_haz_prox != old(self)@.cells[k].uni_haz_prox;
                let then = |k: int|
                    grid_before.cells[k].uni_haz_prox != old(self)@.cells[k].uni_haz_prox;
                lemma_list_grows(listed_before, affected@, then, now, i as int);
            }
            i += 1;
        }
        affected
    }

    /// Forgets in every cell the hazards named by `to_deregister`; the cells whose
    /// closest hazard was among them account anew for the active hazards of
    /// `remaining`. Returns the places of those cells.
    pub fn deregister(&mut self, to_deregister: &[HazardEntity], remaining: &[Hazard]) -> (affected:
        Vec<usize>)
        requires
            old(self).wf(),
            all_wf(hazard_views(remaining@)),
            all_active_forbid_inside(hazard_views(remaining@)),
        ensures
            final(self).wf(),
            grid_deregistered(
                old(self)@,
                final(self)@,
                to_deregister@,
                hazard_views(remaining@),
            ),
            lists_marked(
                affected@,
                |i: int| to_deregister@.contains(old(self)@.cells[i].uni_haz_prox.1),
                old(self)@.cells.len() as int,
            ),
    {
        let ghost views = hazard_views(remaining@);
        let ghost marked = |i: int| to_deregister@.contains(old(self)@.cells[i].uni_haz_prox.1);
        let mut affected: Vec<usize> = Vec::new();
        let n: usize = self.cells.len();
        let mut i: usize = 0;
        while i < n
            invariant
                0 <= i <= n,
                n == self.cells@.len(),
                n == old(self)@.cells.len(),
                views == hazard_views(remaining@),
                all_wf(views),
                all_active_forbid_inside(views),
                old(self)@.wf(),
                self@.same_frame(old(self)@),
                marked == (|i: int| to_deregister@.contains(old(self)@.cells[i].uni_haz_prox.1)),
                forall|j: int| 0 <= j < n ==> (#[trigger] self@.cells[j]).wf(),
                forall|j: int| i <= j < n ==> (#[trigger] self@.cells[j]) == old(self)@.cells[j],
                forall|j: int|
                    0 <= j < i ==> if to_deregister@.contains(
                        (#[trigger] old(self)@.cells[j]).uni_haz_prox.1,
                    ) {
                        registered(
                            old(self)@.cells[j].static_uni_haz_prox,
                            self@.cells[j].uni_haz_prox,
                            views,
                            old(self)@.cells[j].centroid,
                        )
                    } else {
                        self@.cells[j] == old(self)@.cells[j]
                    },
                lists_marked(affected@, marked, i as int),
            decreases n - i,
        {
            let ghost grid_before = self@;
            let ghost listed_before = affected@;
            assert(self@.cells[i as int] == self.cells@[i as int]@);
            let update: HPCellUpdate = self.cells[i].deregister_hazards(to_deregister, remaining);
            proof {
                assert(self@.cells[i as int] == self.cells@[i as int]@);
                assert forall|j: int| 0 <= j < n && j != i implies #[trigger] self@.cells[j]
                    == grid_before.cells[j] by {
                    assert(self.cells@[j]@ == grid_before.cells[j]);
                }
            }
            if update == HPCellUpdate::Affected {
                affected.push(i);
            }
            proof {
                lemma_list_grows(listed_before, affected@, marked, marked, i as int);
            }
            i += 1;
        }
        affected
    }
}

/// `cell` is the cell over `tile` of a bin with the static hazards `statics`, before
/// any dynamic hazard is registered.
pub open spec fn cell_built(cell: HPCellView, tile: AARectangle, statics: Seq<HazardView>) -> bool {
    &&& cell.wf()
    &&& cell.bbox == tile
    &&& cell.uni_haz_prox == cell.static_uni_haz_prox
    &&& cell.static_uni_haz_prox == closest_static(statics, cell.centroid, statics.len() as int)
    &&& forall|q: int|
        0 <= q < N_QUALITIES ==> #[trigger] cell.qz_haz_prox[q] == closest_quality_zone(
            statics,
            q,
            cell.centroid,
            statics.len() as int,
        )
}

/// The quotient of a negative number by a positive one is negative.
proof fn lemma_negative_quotient(a: int, d: int)
    by (nonlinear_arith)
    requires
        a < 0,
        0 < d,
    ensures
        a / d < 0,
{
}

/// Every tile of a grid is a square whose side is the cell size.
proof fn lemma_tiles_are_squares(grid: HPGridView, i: int)
    requires
        grid.wf(),
        0 <= i < grid.cells.len(),
    ensures
        grid.cells[i].bbox.spec_width() == grid.cell_size,
        grid.cells[i].bbox.spec_height() == grid.cell_size,
        grid.cells[i].radius == grid.cells[i].bbox.spec_half_diagonal(),
{
    let row = i / (grid.n_cols as int);
    let col = i % (grid.n_cols as int);
    let size = grid.cell_size as int;
    lemma_division_brackets(i, grid.n_cols as int);
    vstd::arithmetic::div_mod::lemma_fundamental_div_mod(i, grid.n_cols as int);
    assert(0 <= col < grid.n_cols);
    assert(row < grid.n_rows) by (nonlinear_arith)
        requires
            row * grid.n_cols <= i,
            i < grid.n_rows * grid.n_cols,
            0 < grid.n_cols,
    ;
    lemma_product_step(col, size);
    lemma_product_step(row, size);
    lemma_product_monotone(0, 0, col, size);
    lemma_product_monotone(0, 0, row, size);
    lemma_product_monotone(col + 1, size, grid.n_cols as int, size);
    lemma_product_monotone(row + 1, size, grid.n_rows as int, size);
}

/// A list of marked places stays one when the next place is looked at and listed if
/// it is marked, where the marks of the places before it stay as they were.
proof fn lemma_list_grows(
    before: Seq<usize>,
    after: Seq<usize>,
    then: spec_fn(int) -> bool,
    now: spec_fn(int) -> bool,
    i: int,
)
    requires
        0 <= i <= usize::MAX,
        lists_marked(before, then, i),
        forall|k: int| 0 <= k < i ==> #[trigger] then(k) == now(k),
        after == if now(i) {
            before.push(i as usize)
        } else {
            before
        },
    ensures
        lists_marked(after, now, i + 1),
{
    assert forall|k: int| 0 <= k < i + 1 && #[trigger] now(k) implies after.contains(k as usize) by {
        if k < i {
            assert(then(k));
            let a = choose|a: int| 0 <= a < before.len() && before[a] == k as usize;
            assert(after[a] == k as usize);
        } else {
            assert(after[before.len() as int] == i as usize);
        }
    }
}

/// A grid keeps its frame where nothing is done to it.
pub proof fn lemma_same_frame_reflexive(grid: HPGridView)
    ensures
        grid.same_frame(grid),
{
    assert forall|i: int| 0 <= i < grid.cells.len() implies (#[trigger] grid.cells[i]) == (HPCellView {
        uni_haz_prox: grid.cells[i].uni_haz_prox,
        ..grid.cells[i]
    }) by {}
}

/// The static part of the cells stays where the frame of the grid stays.
pub proof fn lemma_same_frame_keeps_statics(
    before: HPGridView,
    after: HPGridView,
    statics: Seq<HazardView>,
)
    requires
        before.built_from(statics),
        after.same_frame(before),
    ensures
        after.built_from(statics),
{
    assert forall|i: int| 0 <= i < after.cells.len() implies {
        let cell = #[trigger] after.cells[i];
        &&& cell.static_uni_haz_prox == closest_static(statics, cell.centroid, statics.len() as int)
        &&& forall|q: int|
            0 <= q < N_QUALITIES ==> #[trigger] cell.qz_haz_prox[q] == closest_quality_zone(
                statics,
                q,
                cell.centroid,
                statics.len() as int,
            )
    } by {
        let old_cell = before.cells[i];
        assert(old_cell.static_uni_haz_prox == closest_static(
            statics,
            old_cell.centroid,
            statics.len() as int,
        ));
    }
}

/// A grid that accounts for the hazards of `dynamic` and then registers those of
/// `added` accounts for both.
pub proof fn lemma_grid_registration_keeps_track(
    before: HPGridView,
    after: HPGridView,
    dynamic: Seq<HazardView>,
    added: Seq<HazardView>,
)
    requires
        before.tracks(dynamic),
        grid_registered(before, after, added),
    ensures
        after.tracks(dynamic + added),
{
    assert forall|i: int| 0 <= i < after.cells.len() implies (#[trigger] after.cells[i]).tracks(
        dynamic + added,
    ) by {
        assert(before.cells[i].tracks(dynamic));
        lemma_registration_keeps_track(before.cells[i], after.cells[i], dynamic, added);
    }
}

/// A grid that accounts for the hazards of `dynamic` and then deregisters the
/// entities of `named` accounts for `remaining`, where `remaining` holds, of the
/// active hazards of `dynamic`, all but those named, and no other active hazard.
pub proof fn lemma_grid_deregistration_keeps_track(
    before: HPGridView,
    after: HPGridView,
    dynamic: Seq<HazardView>,
    named: Seq<HazardEntity>,
    remaining: Seq<HazardView>,
)
    requires
        before.tracks(dynamic),
        grid_deregistered(before, after, named, remaining),
        forall|j: int|
            0 <= j < remaining.len() && (#[trigger] remaining[j]).active ==> dynamic.contains(
                remaining[j],
            ),
        forall|i: int|
            0 <= i < dynamic.len() && (#[trigger] dynamic[i]).active && !named.contains(
                dynamic[i].entity,
            ) ==> remaining.contains(dynamic[i]),
    ensures
        after.tracks(remaining),
{
    assert forall|i: int| 0 <= i < after.cells.len() implies (#[trigger] after.cells[i]).tracks(
        remaining,
    ) by {
        assert(before.cells[i].tracks(dynamic));
        lemma_deregistration_keeps_track(before.cells[i], after.cells[i], dynamic, named, remaining);
    }
}

/// What a grid accounts for depends on the hazards that are switched on only.
pub proof fn lemma_grid_tracks_same_active(grid: HPGridView, s1: Seq<HazardView>, s2: Seq<HazardView>)
    requires
        grid.tracks(s1),
        forall|i: int| 0 <= i < s1.len() && (#[trigger] s1[i]).active ==> s2.contains(s1[i]),
        forall|j: int| 0 <= j < s2.len() && (#[trigger] s2[j]).active ==> s1.contains(s2[j]),
    ensures
        grid.tracks(s2),
{
    assert forall|i: int| 0 <= i < grid.cells.len() implies (#[trigger] grid.cells[i]).tracks(s2) by {
        lemma_tracks_same_active(grid.cells[i], s1, s2);
    }
}

} // verus!
