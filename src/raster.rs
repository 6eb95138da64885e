//! A boolean occupancy grid built from a game state.
use crate::game::{at, GameState};
use crate::types::{Coord, Point};
use vstd::prelude::*;

verus! {

/// A `width` x `height` grid of cells, stored row by row.
#[derive(Debug, Clone)]
pub struct Raster2D {
    pub width: Coord,
    pub height: Coord,
    pub cells: Vec<bool>,
}

/// Distinct cells of a `w` x `h` grid have distinct row-major indices, all
/// below `w * h`.
pub proof fn lemma_cell_index(w: int, h: int, x: int, y: int, x2: int, y2: int)
    requires
        0 <= x < w,
        0 <= y < h,
        0 <= x2 < w,
        0 <= y2 < h,
    ensures
        0 <= y * w + x < w * h,
        y * w + x == y2 * w + x2 ==> x == x2 && y == y2,
{
    assert(0 <= y * w + x < w * h) by (nonlinear_arith)
        requires
            0 <= x < w,
            0 <= y < h,
    ;
    if y * w + x == y2 * w + x2 {
        assert(x == x2 && y == y2) by (nonlinear_arith)
            requires
                0 <= x < w,
                0 <= x2 < w,
                y * w + x == y2 * w + x2,
        ;
    }
}

impl Raster2D {
    /// The stored index a probe at `(x, y)` reads: probes in
    /// `0..=width` x `0..=height` address `y * width + x`, as far as the
    /// cells reach.
    pub open spec fn slot(&self, x: int, y: int) -> Option<int> {
        if x < 0 || y < 0 || x > self.width || y > self.height || y * self.width + x >= self.cells@.len() {
            None
        } else {
            Some(y * self.width + x)
        }
    }

    /// What a probe at `(x, y)` reads.
    pub open spec fn cell(&self, x: int, y: int) -> Option<bool> {
        match self.slot(x, y) {
            Some(i) => Some(self.cells@[i]),
            None => None,
        }
    }

    /// The cell at `(x, y)` is on.
    pub open spec fn lit(&self, x: int, y: int) -> bool {
        self.cell(x, y) == Some(true)
    }

    /// The cells hold exactly one entry per grid square.
    pub open spec fn sized(&self) -> bool {
        &&& self.width >= 0
        &&& self.height >= 0
        &&& self.cells@.len() == self.width * self.height
    }

    /// An all-off grid; a negative dimension counts as zero cells.
    pub fn new(width: Coord, height: Coord) -> (r: Self)
        requires
            (if width < 0 { 0 } else { width as int }) * (if height < 0 { 0 } else { height as int }) <= i32::MAX,
        ensures
            r.width == width,
            r.height == height,
            r.cells@ == Seq::new(
                ((if width < 0 { 0 } else { width as int }) * (if height < 0 { 0 } else { height as int })) as nat,
                |i: int| false,
            ),
    {
        let w: i32 = if width < 0 { 0 } else { width };
        let h: i32 = if height < 0 { 0 } else { height };
        let size = (w * h) as usize;
        Raster2D { width, height, cells: vec![false; size] }
    }

    fn idx(&self, x: Coord, y: Coord) -> (r: Option<usize>)
        ensures
            match r {
                Some(i) => self.slot(x as int, y as int) == Some(i as int),
                None => self.slot(x as int, y as int) == None::<int>,
            },
    {
        if x < 0 || y < 0 || x > self.width || y > self.height {
            return None;
        }
        let n = self.cells.len();
        let xu = x as usize;
        let yu = y as usize;
        let wu = self.width as usize;
        assert(xu as int == x && yu as int == y && wu as int == self.width);
        match yu.checked_mul(wu) {
            Some(m) => {
                assert(m as int == y * self.width);
                match m.checked_add(xu) {
                    Some(i) => {
                        if i < n {
                            assert(self.slot(x as int, y as int) == Some(i as int));
                            Some(i)
                        } else {
                            assert(self.slot(x as int, y as int) == None::<int>);
                            None
                        }
                    },
                    None => {
                        assert(self.slot(x as int, y as int) == None::<int>);
                        None
                    },
                }
            },
            None => {
                assert(y as int * self.width as int >= 0) by (nonlinear_arith)
                    requires
                        y >= 0,
                        self.width >= 0,
                ;
                assert(self.slot(x as int, y as int) == None::<int>);
                None
            },
        }
    }

    /// Switches the cell at `(x, y)`; a probe that addresses no cell changes
    /// nothing.
    pub fn set(&mut self, x: Coord, y: Coord, on: bool)
        ensures
            final(self).width == old(self).width,
            final(self).height == old(self).height,
            final(self).cells@ == match old(self).slot(x as int, y as int) {
                Some(i) => old(self).cells@.update(i, on),
                None => old(self).cells@,
            },
    {
        match self.idx(x, y) {
            Some(i) => {
                self.cells.set(i, on);
            },
            None => {},
        }
    }

    /// The cell at `(x, y)`, or `None` where the probe addresses no cell.
    pub fn get(&self, x: Coord, y: Coord) -> (r: Option<bool>)
        ensures
            r == self.cell(x as int, y as int),
    {
        match self.idx(x, y) {
            Some(i) => Some(self.cells[i]),
            None => None,
        }
    }
}

/// Switches on the cells of `pts`; each point lies in one of the grid's rows
/// and not right of it, so a point left of the grid addresses nothing.
fn draw_points(r: &mut Raster2D, pts: &Vec<Point>)
    requires
        old(r).sized(),
        old(r).width > 0,
        forall|i: int| 0 <= i < pts@.len() ==> (#[trigger] pts@[i]).x < old(r).width && 0 <= pts@[i].y < old(r).height,
    ensures
        final(r).width == old(r).width,
        final(r).height == old(r).height,
        final(r).sized(),
        forall|x: int, y: int|
            0 <= x < final(r).width && 0 <= y < final(r).height ==> (#[trigger] final(r).lit(x, y) <==> (old(r).lit(x, y)
                || pts@.contains(at(x, y)))),
{
    let ghost w = r.width as int;
    let ghost h = r.height as int;
    let mut k: usize = 0;
    while k < pts.len()
        invariant
            w == r.width && h == r.height,
            w == old(r).width && h == old(r).height,
            w > 0,
            r.sized(),
            forall|i: int| 0 <= i < pts@.len() ==> (#[trigger] pts@[i]).x < w && 0 <= pts@[i].y < h,
            k <= pts@.len(),
            forall|x: int, y: int|
                0 <= x < w && 0 <= y < h ==> (#[trigger] r.lit(x, y) <==> (old(r).lit(x, y) || pts@.subrange(
                    0,
                    k as int,
                ).contains(at(x, y)))),
        decreases pts@.len() - k,
    {
        let p = pts[k];
        let ghost before = *r;
        r.set(p.x, p.y, true);
        proof {
            let done = pts@.subrange(0, k as int);
            let next = pts@.subrange(0, k as int + 1);
            assert(next =~= done.push(p));
            assert forall|x: int, y: int| 0 <= x < w && 0 <= y < h implies (#[trigger] r.lit(x, y) <==> (old(r).lit(x, y)
                || next.contains(at(x, y)))) by {
                lemma_cell_index(w, h, x, y, x, y);
                assert(before.lit(x, y) <==> (old(r).lit(x, y) || done.contains(at(x, y))));
                if next.contains(at(x, y)) && !done.contains(at(x, y)) {
                    let j = choose|j: int| 0 <= j < next.len() && next[j] == at(x, y);
                    assert(j == k);
                }
                if done.contains(at(x, y)) {
                    let j = choose|j: int| 0 <= j < done.len() && done[j] == at(x, y);
                    assert(next[j] == at(x, y));
                }
                if p.x >= 0 {
                    lemma_cell_index(w, h, x, y, p.x as int, p.y as int);
                    if y * w + x == p.y * w + p.x {
                        assert(at(x, y) == p);
                        assert(next[k as int] == p);
                    } else {
                        assert(at(x, y) != p);
                    }
                }
            }
        }
        k += 1;
    }
    proof {
        assert(pts@.subrange(0, pts@.len() as int) =~= pts@);
    }
}

/// `r` is the occupancy grid of `state`: its size is the board's, and a cell
/// is on exactly where a snake segment or a food item lies.
pub open spec fn rasterized(state: GameState, r: Raster2D) -> bool {
    &&& r.width == state.cfg_view().width
    &&& r.height == state.cfg_view().height
    &&& r.sized()
    &&& forall|x: int, y: int|
        0 <= x < r.width && 0 <= y < r.height ==> (#[trigger] r.lit(x, y) <==> (state.snake_view().contains(at(x, y))
            || state.food_view().contains(at(x, y))))
}

/// The occupancy grid of a game.
pub fn rasterize_game(state: &GameState) -> (r: Raster2D)
    requires
        state.wf(),
        state.cfg_view().width * state.cfg_view().height <= i32::MAX,
    ensures
        rasterized(*state, r),
{
    let cfg = state.config();
    let mut r = Raster2D::new(cfg.width, cfg.height);
    let snake = state.snake_segments();
    let food = state.food_positions();
    proof {
        let w = r.width as int;
        let h = r.height as int;
        assert forall|x: int, y: int| 0 <= x < w && 0 <= y < h implies !(#[trigger] r.lit(x, y)) by {
            lemma_cell_index(w, h, x, y, x, y);
        }
        assert forall|i: int| 0 <= i < food@.len() implies (#[trigger] food@[i]).x < w && 0 <= food@[i].y < h by {
            assert(state.cfg_view().contains(state.food_seq()[i]));
        }
    }
    draw_points(&mut r, &snake);
    draw_points(&mut r, &food);
    proof {
        assert forall|x: int, y: int| 0 <= x < r.width && 0 <= y < r.height implies (#[trigger] r.lit(x, y)
            <==> (state.snake_view().contains(at(x, y)) || state.food_view().contains(at(x, y)))) by {
            if food@.contains(at(x, y)) {
                assert(food@.to_set().contains(at(x, y)));
            }
        }
    }
    r
}

} // verus!
