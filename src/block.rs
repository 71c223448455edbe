use vstd::prelude::*;
use vstd::arithmetic::div_mod::lemma_fundamental_div_mod;
use crate::faces::{
    is_x_face, is_y_face, lemma_cell_faces, lemma_decode, lemma_encode, lemma_x_face_in_range,
    lemma_y_face_in_range, x_face, x_face_count, y_face, y_face_count,
};
use crate::parallel::par_collect;
use crate::boundary::{
    edge_len, edge_slot, on_any_edge, refresh_grid, refreshed, rule_of, BoundaryEdge,
    BoundaryType,
};
use crate::gitter::{flat_offset, Gitter};

verus! {

/// One of the four fields that a block holds per cell.
#[derive(PartialEq, Eq, Structural, Copy, Clone, Debug)]
pub enum Field {
    /// Water depth.
    H,
    /// Momentum along x.
    Hu,
    /// Momentum along y.
    Hv,
    /// Bed elevation.
    B,
}

/// A rectangular block of `nx` by `ny` interior cells surrounded by one ring
/// of ghost cells, with cell sizes `dx` and `dy`.
pub struct Block<T> {
    nx: usize,
    ny: usize,
    dx: T,
    dy: T,
    h: Gitter<T>,
    hu: Gitter<T>,
    hv: Gitter<T>,
    b: Gitter<T>,
    boundaries: [BoundaryType; 4],
}

impl<T> Block<T> {
    /// Number of interior columns.
    pub closed spec fn nx(&self) -> nat {
        self.nx as nat
    }

    /// Number of interior rows.
    pub closed spec fn ny(&self) -> nat {
        self.ny as nat
    }

    /// Cell width.
    pub closed spec fn dx(&self) -> T {
        self.dx
    }

    /// Cell height.
    pub closed spec fn dy(&self) -> T {
        self.dy
    }

    /// The field `f`.
    pub closed spec fn field(&self, f: Field) -> Gitter<T> {
        match f {
            Field::H => self.h,
            Field::Hu => self.hu,
            Field::Hv => self.hv,
            Field::B => self.b,
        }
    }

    /// Boundary type of edge `e`.
    pub closed spec fn boundary(&self, e: BoundaryEdge) -> BoundaryType {
        self.boundaries[edge_slot(e)]
    }

    /// `g` is a field of `nx + 2` by `ny + 2` cells.
    pub open spec fn fits(&self, g: Gitter<T>) -> bool {
        g.wf() && g.cols() == self.nx() + 2 && g.rows() == self.ny() + 2
    }

    /// Every field is `nx + 2` by `ny + 2` cells, and the sizes fit in `usize`.
    pub open spec fn wf(&self) -> bool {
        &&& self.nx() + 2 <= usize::MAX
        &&& self.ny() + 2 <= usize::MAX
        &&& (self.nx() + 2) * (self.ny() + 2) <= usize::MAX
        &&& self.fits(self.field(Field::H))
        &&& self.fits(self.field(Field::Hu))
        &&& self.fits(self.field(Field::Hv))
        &&& self.fits(self.field(Field::B))
    }

    /// Value of field `f` at cell `(x, y)`.
    pub open spec fn at(&self, f: Field, x: int, y: int) -> T {
        self.field(f).at(x, y)
    }

    pub fn get_nx(&self) -> (r: usize)
        ensures
            r == self.nx(),
    {
        self.nx
    }

    pub fn get_ny(&self) -> (r: usize)
        ensures
            r == self.ny(),
    {
        self.ny
    }

    /// The field `f`.
    pub fn grid(&self, f: Field) -> (r: &Gitter<T>)
        ensures
            *r == self.field(f),
    {
        match f {
            Field::H => &self.h,
            Field::Hu => &self.hu,
            Field::Hv => &self.hv,
            Field::B => &self.b,
        }
    }

    /// Offset of cell `(x, y)` (row `y`, column `x`) in the storage of a field.
    pub fn calculate_flat_index(&self, y: usize, x: usize) -> (r: usize)
        requires
            self.wf(),
            x < self.nx() + 2,
            y < self.ny() + 2,
        ensures
            r == flat_offset((self.nx() + 2) as int, x as int, y as int),
            r < (self.nx() + 2) * (self.ny() + 2),
    {
        proof {
            crate::gitter::lemma_offset_in_range(
                self.nx + 2,
                self.ny + 2,
                x as int,
                y as int,
            );
        }
        y * (self.nx + 2) + x
    }

    /// The cell `(row, column)` whose offset in the storage of a field is `i`.
    pub fn calculate_gitter_index(&self, i: usize) -> (r: (usize, usize))
        requires
            self.wf(),
            i < (self.nx() + 2) * (self.ny() + 2),
        ensures
            r.1 < self.nx() + 2,
            r.0 < self.ny() + 2,
            flat_offset((self.nx() + 2) as int, r.1 as int, r.0 as int) == i,
    {
        let w = self.nx + 2;
        let y = i / w;
        let x = i % w;
        proof {
            lemma_fundamental_div_mod(i as int, w as int);
            let t = self.ny + 2;
            assert(y * w + x == i) by (nonlinear_arith)
                requires
                    i == w * y + x,
            ;
            assert(y < t) by (nonlinear_arith)
                requires
                    i == w * y + x,
                    0 <= x,
                    0 < w,
                    i < w * t,
            ;
        }
        (y, x)
    }

    /// Boundary type of edge `e`.
    pub fn get_boundary(&self, e: BoundaryEdge) -> (r: BoundaryType)
        ensures
            r == self.boundary(e),
    {
        match e {
            BoundaryEdge::BndLeft => self.boundaries[0],
            BoundaryEdge::BndRight => self.boundaries[1],
            BoundaryEdge::BndBottom => self.boundaries[2],
            BoundaryEdge::BndTop => self.boundaries[3],
        }
    }

    /// Sets the boundary type of edge `e` to `bt`; nothing else changes.
    pub fn set_boundary(&mut self, e: BoundaryEdge, bt: BoundaryType)
        ensures
            final(self).boundary(e) == bt,
            forall|o: BoundaryEdge| o != e ==> #[trigger] final(self).boundary(o) == old(
                self,
            ).boundary(o),
            forall|f: Field| #[trigger] final(self).field(f) == old(self).field(f),
            final(self).nx() == old(self).nx(),
            final(self).ny() == old(self).ny(),
            final(self).dx() == old(self).dx(),
            final(self).dy() == old(self).dy(),
    {
        let b = self.boundaries;
        self.boundaries = match e {
            BoundaryEdge::BndLeft => [bt, b[1], b[2], b[3]],
            BoundaryEdge::BndRight => [b[0], bt, b[2], b[3]],
            BoundaryEdge::BndBottom => [b[0], b[1], bt, b[3]],
            BoundaryEdge::BndTop => [b[0], b[1], b[2], bt],
        };
    }

    /// Builds a block from its four fields and the boundary types of its
    /// edges, given left, right, bottom, top; `None` unless each field is
    /// `nx + 2` by `ny + 2` cells.
    pub fn from_fields(
        nx: usize,
        ny: usize,
        dx: T,
        dy: T,
        h: Gitter<T>,
        hu: Gitter<T>,
        hv: Gitter<T>,
        b: Gitter<T>,
        boundaries: [BoundaryType; 4],
    ) -> (r: Option<Block<T>>)
        requires
            h.wf(),
            hu.wf(),
            hv.wf(),
            b.wf(),
        ensures
            r.is_some() <==> {
                &&& nx + 2 <= usize::MAX && ny + 2 <= usize::MAX
                &&& h.cols() == nx + 2 && h.rows() == ny + 2
                &&& hu.cols() == nx + 2 && hu.rows() == ny + 2
                &&& hv.cols() == nx + 2 && hv.rows() == ny + 2
                &&& b.cols() == nx + 2 && b.rows() == ny + 2
            },
            r matches Some(k) ==> {
                &&& k.wf()
                &&& k.nx() == nx && k.ny() == ny && k.dx() == dx && k.dy() == dy
                &&& k.field(Field::H) == h && k.field(Field::Hu) == hu
                &&& k.field(Field::Hv) == hv && k.field(Field::B) == b
                &&& forall|e: BoundaryEdge| #[trigger] k.boundary(e) == boundaries[edge_slot(e)]
            },
    {
        if nx > usize::MAX - 2 || ny > usize::MAX - 2 {
            return None;
        }
        let w = nx + 2;
        let t = ny + 2;
        if h.get_cols() != w || h.get_rows() != t || hu.get_cols() != w || hu.get_rows() != t
            || hv.get_cols() != w || hv.get_rows() != t || b.get_cols() != w || b.get_rows()
            != t {
            return None;
        }
        let _n = h.as_slice().len();
        let k = Block { nx, ny, dx, dy, h, hu, hv, b, boundaries };
        Some(k)
    }
}

impl<T: Copy> Block<T> {
    /// A block of `nx` by `ny` interior cells whose every cell of every field
    /// holds `fill`, with a wall on every edge.
    pub fn new(l_nx: usize, l_ny: usize, l_dx: T, l_dy: T, fill: T) -> (r: Block<T>)
        requires
            (l_nx + 2) * (l_ny + 2) <= usize::MAX,
        ensures
            r.wf(),
            r.nx() == l_nx,
            r.ny() == l_ny,
            r.dx() == l_dx,
            r.dy() == l_dy,
            forall|f: Field, x: int, y: int|
                0 <= x < l_nx + 2 && 0 <= y < l_ny + 2 ==> #[trigger] r.at(f, x, y) == fill,
            forall|e: BoundaryEdge| #[trigger] r.boundary(e) == BoundaryType::Wall,
    {
        proof {
            assert(l_nx + 2 <= (l_nx + 2) * (l_ny + 2)) by (nonlinear_arith);
            assert(l_ny + 2 <= (l_nx + 2) * (l_ny + 2)) by (nonlinear_arith);
        }
        let w = l_nx + 2;
        let t = l_ny + 2;
        let r = Block {
            nx: l_nx,
            ny: l_ny,
            dx: l_dx,
            dy: l_dy,
            h: Gitter::new(w, t, fill),
            hu: Gitter::new(w, t, fill),
            hv: Gitter::new(w, t, fill),
            b: Gitter::new(w, t, fill),
            boundaries: [BoundaryType::Wall; 4],
        };
        assert forall|f: Field, x: int, y: int|
            0 <= x < l_nx + 2 && 0 <= y < l_ny + 2 implies #[trigger] r.at(f, x, y) == fill by {
            crate::gitter::lemma_offset_in_range(w as int, t as int, x, y);
        }
        r
    }

    /// Value of field `f` at cell `(x, y)`.
    pub fn get(&self, f: Field, x: usize, y: usize) -> (r: T)
        requires
            self.wf(),
            x < self.nx() + 2,
            y < self.ny() + 2,
        ensures
            r == self.at(f, x as int, y as int),
    {
        self.grid(f).get(x, y)
    }

    /// Cell width.
    pub fn get_dx(&self) -> (r: T)
        ensures
            r == self.dx(),
    {
        self.dx
    }

    /// Cell height.
    pub fn get_dy(&self) -> (r: T)
        ensures
            r == self.dy(),
    {
        self.dy
    }

    /// Refreshes the ghost cells of every field along every edge by the rule
    /// that the edge's boundary type gives for that field (`rule_of`); a
    /// negated value is what `negate` gives.  Interior cells and corners keep
    /// their values.
    pub fn refresh_ghosts<N: Fn(T) -> T>(&mut self, negate: &N)
        requires
            old(self).wf(),
            forall|v: T| negate.requires((v,)),
        ensures
            final(self).wf(),
            final(self).nx() == old(self).nx(),
            final(self).ny() == old(self).ny(),
            final(self).dx() == old(self).dx(),
            final(self).dy() == old(self).dy(),
            forall|e: BoundaryEdge| #[trigger] final(self).boundary(e) == old(self).boundary(e),
            forall|f: Field, e: BoundaryEdge, i: int|
                1 <= i <= edge_len(old(self).nx() as int, old(self).ny() as int, e)
                    ==> #[trigger] refreshed(
                    old(self).field(f),
                    final(self).field(f),
                    old(self).nx() as int,
                    old(self).ny() as int,
                    e,
                    rule_of(old(self).boundary(e), e, f),
                    *negate,
                    i,
                ),
            forall|f: Field, x: int, y: int|
                0 <= x < old(self).nx() + 2 && 0 <= y < old(self).ny() + 2 && !on_any_edge(
                    old(self).nx() as int,
                    old(self).ny() as int,
                    x,
                    y,
                ) ==> #[trigger] final(self).at(f, x, y) == old(self).at(f, x, y),
    {
        let nx = self.nx;
        let ny = self.ny;
        let bnd = self.boundaries;
        refresh_grid(&mut self.h, nx, ny, Field::H, bnd, negate);
        refresh_grid(&mut self.hu, nx, ny, Field::Hu, bnd, negate);
        refresh_grid(&mut self.hv, nx, ny, Field::Hv, bnd, negate);
        refresh_grid(&mut self.b, nx, ny, Field::B, bnd, negate);
    }

    /// `fix` done on interior cell `(x, y)`: `new` gives what `fix` returned
    /// for the depth and both momenta that `old` holds there.
    pub open spec fn fixed<F: Fn(T, T, T) -> (T, T, T)>(
        old: &Self,
        new: &Self,
        fix: F,
        x: int,
        y: int,
    ) -> bool {
        fix.ensures(
            (old.at(Field::H, x, y), old.at(Field::Hu, x, y), old.at(Field::Hv, x, y)),
            (new.at(Field::H, x, y), new.at(Field::Hu, x, y), new.at(Field::Hv, x, y)),
        )
    }

    /// Replaces depth and both momenta of every interior cell with what `fix`
    /// gives for them; the bed, the ghost cells and the boundaries are kept.
    pub fn fix_cells<F: Fn(T, T, T) -> (T, T, T)>(&mut self, fix: &F)
        requires
            old(self).wf(),
            forall|a: (T, T, T)| fix.requires(a),
        ensures
            final(self).wf(),
            final(self).nx() == old(self).nx(),
            final(self).ny() == old(self).ny(),
            final(self).dx() == old(self).dx(),
            final(self).dy() == old(self).dy(),
            forall|e: BoundaryEdge| #[trigger] final(self).boundary(e) == old(self).boundary(e),
            final(self).field(Field::B) == old(self).field(Field::B),
            forall|x: int, y: int|
                1 <= x <= old(self).nx() && 1 <= y <= old(self).ny() ==> #[trigger] Self::fixed(
                    old(self),
                    final(self),
                    *fix,
                    x,
                    y,
                ),
            forall|f: Field, x: int, y: int|
                0 <= x < old(self).nx() + 2 && 0 <= y < old(self).ny() + 2 && !(1 <= x
                    <= old(self).nx() && 1 <= y <= old(self).ny()) ==> #[trigger] final(self).at(
                    f,
                    x,
                    y,
                ) == old(self).at(f, x, y),
    {
        let ghost s0 = *self;
        let nx = self.nx;
        let ny = self.ny;
        let mut y: usize = 1;
        while y <= ny
            invariant
                self.wf(),
                s0.wf(),
                self.nx == nx && self.ny == ny && s0.nx == nx && s0.ny == ny,
                self.dx == s0.dx && self.dy == s0.dy,
                self.b == s0.b,
                self.boundaries == s0.boundaries,
                1 <= y <= ny + 1,
                forall|a: (T, T, T)| fix.requires(a),
                forall|a: int, c: int|
                    1 <= a <= nx && 1 <= c < y ==> #[trigger] Self::fixed(&s0, self, *fix, a, c),
                forall|f: Field, a: int, c: int|
                    0 <= a < nx + 2 && 0 <= c < ny + 2 && !(1 <= a <= nx && 1 <= c < y)
                        ==> #[trigger] self.at(f, a, c) == s0.at(f, a, c),
            decreases ny + 1 - y,
        {
            let mut x: usize = 1;
            while x <= nx
                invariant
                    self.wf(),
                    s0.wf(),
                    self.nx == nx && self.ny == ny && s0.nx == nx && s0.ny == ny,
                    self.dx == s0.dx && self.dy == s0.dy,
                    self.b == s0.b,
                    self.boundaries == s0.boundaries,
                    1 <= y <= ny,
                    1 <= x <= nx + 1,
                    forall|a: (T, T, T)| fix.requires(a),
                    forall|a: int, c: int|
                        1 <= a <= nx && 1 <= c <= y && (c < y || a < x) ==> #[trigger] Self::fixed(
                            &s0,
                            self,
                            *fix,
                            a,
                            c,
                        ),
                    forall|f: Field, a: int, c: int|
                        0 <= a < nx + 2 && 0 <= c < ny + 2 && !(1 <= a <= nx && 1 <= c <= y && (c
                            < y || a < x)) ==> #[trigger] self.at(f, a, c) == s0.at(f, a, c),
                decreases nx + 1 - x,
            {
                let ghost prev = *self;
                proof {
                    assert(prev.at(Field::H, x as int, y as int) == s0.at(Field::H, x as int, y as int));
                    assert(prev.at(Field::Hu, x as int, y as int) == s0.at(Field::Hu, x as int, y as int));
                    assert(prev.at(Field::Hv, x as int, y as int) == s0.at(Field::Hv, x as int, y as int));
                }
                let (h, hu, hv) = fix(self.h.get(x, y), self.hu.get(x, y), self.hv.get(x, y));
                self.h.set(x, y, h);
                self.hu.set(x, y, hu);
                self.hv.set(x, y, hv);
                proof {
                    assert forall|f: Field, a: int, c: int|
                        0 <= a < nx + 2 && 0 <= c < ny + 2 && (a != x || c != y) implies #[trigger] self.at(
                        f,
                        a,
                        c,
                    ) == prev.at(f, a, c) by {}
                    assert(self.at(Field::H, x as int, y as int) == h);
                    assert(self.at(Field::Hu, x as int, y as int) == hu);
                    assert(self.at(Field::Hv, x as int, y as int) == hv);
                    assert(Self::fixed(&s0, self, *fix, x as int, y as int));
                    assert forall|a: int, c: int|
                        1 <= a <= nx && 1 <= c <= y && (c < y || a < x + 1) implies #[trigger] Self::fixed(
                        &s0,
                        self,
                        *fix,
                        a,
                        c,
                    ) by {
                        if a != x || c != y {
                            assert(Self::fixed(&s0, &prev, *fix, a, c));
                            assert(self.at(Field::H, a, c) == prev.at(Field::H, a, c));
                            assert(self.at(Field::Hu, a, c) == prev.at(Field::Hu, a, c));
                            assert(self.at(Field::Hv, a, c) == prev.at(Field::Hv, a, c));
                        }
                    }
                }
                x = x + 1;
            }
            y = y + 1;
        }
    }

    /// The arguments handed to the solver for the vertical interface left of
    /// `(x, y)`: depth, momentum along x and bed of the left cell and the right one.
    pub open spec fn x_face_args(&self, x: int, y: int) -> (T, T, T, T, T, T) {
        (
            self.at(Field::H, x - 1, y),
            self.at(Field::H, x, y),
            self.at(Field::Hu, x - 1, y),
            self.at(Field::Hu, x, y),
            self.at(Field::B, x - 1, y),
            self.at(Field::B, x, y),
        )
    }

    /// The arguments handed to the solver for the horizontal interface below
    /// `(x, y)`: depth, momentum along y and bed of the lower cell and the upper one.
    pub open spec fn y_face_args(&self, x: int, y: int) -> (T, T, T, T, T, T) {
        (
            self.at(Field::H, x, y - 1),
            self.at(Field::H, x, y),
            self.at(Field::Hv, x, y - 1),
            self.at(Field::Hv, x, y),
            self.at(Field::B, x, y - 1),
            self.at(Field::B, x, y),
        )
    }

    /// Solves every vertical interface, in parallel: the result holds, at
    /// position `x_face(nx, x, y)`, what `solve` gave for the interface
    /// between `(x - 1, y)` and `(x, y)`.
    pub fn sweep_x<U: Send, F: Fn(T, T, T, T, T, T) -> U + Sync>(&self, solve: &F) -> (r: Vec<U>)
        where
            T: Sync,
        requires
            self.wf(),
            forall|a: (T, T, T, T, T, T)| solve.requires(a),
        ensures
            r@.len() == x_face_count(self.nx() as int, self.ny() as int),
            forall|x: int, y: int|
                is_x_face(self.nx() as int, self.ny() as int, x, y) ==> solve.ensures(
                    self.x_face_args(x, y),
                    #[trigger] r@[x_face(self.nx() as int, x, y)],
                ),
    {
        let nx = self.nx;
        let ny = self.ny;
        proof {
            assert(ny * (nx + 1) <= (nx + 2) * (ny + 2)) by (nonlinear_arith);
        }
        let w = nx + 1;
        let n = ny * w;
        let one = |k: usize| -> (u: U)
            requires
                self.wf(),
                nx == self.nx(),
                ny == self.ny(),
                w == nx + 1,
                n == ny * w,
                k < n,
                forall|a: (T, T, T, T, T, T)| solve.requires(a),
            ensures
                solve.ensures(self.x_face_args((k % w) as int + 1, (k / w) as int + 1), u),
            {
                proof {
                    lemma_decode(w as int, ny as int, k as int);
                }
                let x = k % w + 1;
                let y = k / w + 1;
                solve(
                    self.h.get(x - 1, y),
                    self.h.get(x, y),
                    self.hu.get(x - 1, y),
                    self.hu.get(x, y),
                    self.b.get(x - 1, y),
                    self.b.get(x, y),
                )
            };
        let r = par_collect(n, &one);
        proof {
            assert forall|x: int, y: int| is_x_face(nx as int, ny as int, x, y) implies solve.ensures(
                self.x_face_args(x, y),
                #[trigger] r@[x_face(nx as int, x, y)],
            ) by {
                let k = x_face(nx as int, x, y);
                lemma_x_face_in_range(nx as int, ny as int, x, y);
                lemma_encode(w as int, x - 1, y - 1);
                assert(one.ensures(((k as usize),), r@[k]));
            }
        }
        r
    }

    /// Solves every horizontal interface, in parallel: the result holds, at
    /// position `y_face(nx, x, y)`, what `solve` gave for the interface
    /// between `(x, y - 1)` and `(x, y)`.
    pub fn sweep_y<U: Send, F: Fn(T, T, T, T, T, T) -> U + Sync>(&self, solve: &F) -> (r: Vec<U>)
        where
            T: Sync,
        requires
            self.wf(),
            forall|a: (T, T, T, T, T, T)| solve.requires(a),
        ensures
            r@.len() == y_face_count(self.nx() as int, self.ny() as int),
            forall|x: int, y: int|
                is_y_face(self.nx() as int, self.ny() as int, x, y) ==> solve.ensures(
                    self.y_face_args(x, y),
                    #[trigger] r@[y_face(self.nx() as int, x, y)],
                ),
    {
        let nx = self.nx;
        let ny = self.ny;
        proof {
            assert((ny + 1) * nx <= (nx + 2) * (ny + 2)) by (nonlinear_arith);
        }
        let w = nx;
        let n = (ny + 1) * w;
        let one = |k: usize| -> (u: U)
            requires
                self.wf(),
                nx == self.nx(),
                ny == self.ny(),
                w == nx,
                n == (ny + 1) * w,
                k < n,
                forall|a: (T, T, T, T, T, T)| solve.requires(a),
            ensures
                w > 0,
                solve.ensures(self.y_face_args((k % w) as int + 1, (k / w) as int + 1), u),
            {
                proof {
                    if w == 0 {
                        assert((ny + 1) * w == 0) by (nonlinear_arith)
                            requires
                                w == 0,
                        ;
                    }
                    lemma_decode(w as int, ny + 1, k as int);
                }
                let x = k % w + 1;
                let y = k / w + 1;
                solve(
                    self.h.get(x, y - 1),
                    self.h.get(x, y),
                    self.hv.get(x, y - 1),
                    self.hv.get(x, y),
                    self.b.get(x, y - 1),
                    self.b.get(x, y),
                )
            };
        let r = par_collect(n, &one);
        proof {
            assert forall|x: int, y: int| is_y_face(nx as int, ny as int, x, y) implies solve.ensures(
                self.y_face_args(x, y),
                #[trigger] r@[y_face(nx as int, x, y)],
            ) by {
                let k = y_face(nx as int, x, y);
                lemma_y_face_in_range(nx as int, ny as int, x, y);
                lemma_encode(w as int, x - 1, y - 1);
                assert(one.ensures(((k as usize),), r@[k]));
            }
        }
        r
    }

    /// What the conservative update asks of interior cell `(x, y)` of field
    /// `f`: `now` is what `step` gave for the cell's value before the update
    /// and the results of its left, right, lower and upper interfaces.
    pub open spec fn stepped<U, S: Fn(T, U, U, U, U) -> T>(
        &self,
        f: Field,
        ux: Seq<U>,
        uy: Seq<U>,
        step: S,
        x: int,
        y: int,
        now: T,
    ) -> bool {
        cell_step(self.field(f), self.nx() as int, ux, uy, step, x, y, now)
    }

    /// Applies the results of both sweeps to field `f`: every interior cell
    /// gets what `step` gives for its value and its four interfaces, in the
    /// order left, right, lower, upper.  Ghost cells and the other fields are
    /// left as they were.
    pub fn update_cells<U: Copy + Sync, S: Fn(T, U, U, U, U) -> T + Sync>(
        &mut self,
        f: Field,
        ux: &Vec<U>,
        uy: &Vec<U>,
        step: &S,
    )
        where
            T: Send + Sync,
        requires
            old(self).wf(),
            ux@.len() == x_face_count(old(self).nx() as int, old(self).ny() as int),
            uy@.len() == y_face_count(old(self).nx() as int, old(self).ny() as int),
            forall|a: (T, U, U, U, U)| step.requires(a),
        ensures
            final(self).wf(),
            final(self).nx() == old(self).nx(),
            final(self).ny() == old(self).ny(),
            final(self).dx() == old(self).dx(),
            final(self).dy() == old(self).dy(),
            forall|g: Field| g != f ==> #[trigger] final(self).field(g) == old(self).field(g),
            forall|x: int, y: int|
                1 <= x <= old(self).nx() && 1 <= y <= old(self).ny() ==> old(self).stepped(
                    f,
                    ux@,
                    uy@,
                    *step,
                    x,
                    y,
                    #[trigger] final(self).at(f, x, y),
                ),
            forall|x: int, y: int|
                0 <= x < old(self).nx() + 2 && 0 <= y < old(self).ny() + 2 && !(1 <= x
                    <= old(self).nx() && 1 <= y <= old(self).ny()) ==> #[trigger] final(self).at(
                    f,
                    x,
                    y,
                ) == old(self).at(f, x, y),
    {
        let ghost before = *self;
        let nx = self.nx;
        let ny = self.ny;
        match f {
            Field::H => update_grid(&mut self.h, nx, ny, ux, uy, step),
            Field::Hu => update_grid(&mut self.hu, nx, ny, ux, uy, step),
            Field::Hv => update_grid(&mut self.hv, nx, ny, ux, uy, step),
            Field::B => update_grid(&mut self.b, nx, ny, ux, uy, step),
        }
        proof {
            assert forall|x: int, y: int|
                1 <= x <= nx && 1 <= y <= ny implies before.stepped(
                f,
                ux@,
                uy@,
                *step,
                x,
                y,
                #[trigger] self.at(f, x, y),
            ) by {}
        }
    }
}

/// `v` is what `step` gave for the value of cell `(x, y)` of `g` and the
/// results of its left, right, lower and upper interfaces.
pub open spec fn cell_step<T, U, S: Fn(T, U, U, U, U) -> T>(
    g: Gitter<T>,
    nx: int,
    ux: Seq<U>,
    uy: Seq<U>,
    step: S,
    x: int,
    y: int,
    v: T,
) -> bool {
    step.ensures(
        (
            g.at(x, y),
            ux[x_face(nx, x, y)],
            ux[x_face(nx, x + 1, y)],
            uy[y_face(nx, x, y)],
            uy[y_face(nx, x, y + 1)],
        ),
        v,
    )
}

/// Writes into every interior cell of `g` what `step` gives for the cell's
/// value and the results of its four interfaces; ghost cells are kept.  The
/// new values are computed in parallel from the old field, then stored.
fn update_grid<T: Copy + Send + Sync, U: Copy + Sync, S: Fn(T, U, U, U, U) -> T + Sync>(
    g: &mut Gitter<T>,
    nx: usize,
    ny: usize,
    ux: &Vec<U>,
    uy: &Vec<U>,
    step: &S,
)
    requires
        old(g).wf(),
        old(g).cols() == nx + 2,
        old(g).rows() == ny + 2,
        nx + 2 <= usize::MAX,
        ny + 2 <= usize::MAX,
        (nx + 2) * (ny + 2) <= usize::MAX,
        ux@.len() == x_face_count(nx as int, ny as int),
        uy@.len() == y_face_count(nx as int, ny as int),
        forall|a: (T, U, U, U, U)| step.requires(a),
    ensures
        final(g).wf(),
        final(g).cols() == nx + 2,
        final(g).rows() == ny + 2,
        forall|x: int, y: int|
            1 <= x <= nx && 1 <= y <= ny ==> cell_step(
                *old(g),
                nx as int,
                ux@,
                uy@,
                *step,
                x,
                y,
                #[trigger] final(g).at(x, y),
            ),
        forall|x: int, y: int|
            old(g).valid(x, y) && !(1 <= x <= nx && 1 <= y <= ny) ==> #[trigger] final(g).at(x, y)
                == old(g).at(x, y),
{
    let ghost g0 = *g;
    if nx == 0 || ny == 0 {
        return;
    }
    proof {
        assert(ny * nx <= (nx + 2) * (ny + 2)) by (nonlinear_arith);
    }
    let n = ny * nx;
    let gr: &Gitter<T> = g;
    let one = |k: usize| -> (v: T)
        requires
            gr.wf(),
            gr.cols() == nx + 2,
            gr.rows() == ny + 2,
            nx + 2 <= usize::MAX,
            ny + 2 <= usize::MAX,
            0 < nx,
            n == ny * nx,
            k < n,
            ux@.len() == x_face_count(nx as int, ny as int),
            uy@.len() == y_face_count(nx as int, ny as int),
            forall|a: (T, U, U, U, U)| step.requires(a),
        ensures
            cell_step(*gr, nx as int, ux@, uy@, *step, (k % nx) + 1, (k / nx) + 1, v),
        {
            proof {
                lemma_decode(nx as int, ny as int, k as int);
            }
            let x = k % nx + 1;
            let y = k / nx + 1;
            proof {
                lemma_cell_faces(nx as int, ny as int, x as int, y as int);
            }
            let _nux = ux.len();
            let _nuy = uy.len();
            let i = (y - 1) * (nx + 1) + (x - 1);
            let j = (y - 1) * nx + (x - 1);
            step(gr.get(x, y), ux[i], ux[i + 1], uy[j], uy[j + nx])
        };
    let vals = par_collect(n, &one);
    proof {
        assert forall|k: int| 0 <= k < n implies cell_step(
            g0,
            nx as int,
            ux@,
            uy@,
            *step,
            (k % nx as int) + 1,
            (k / nx as int) + 1,
            #[trigger] vals@[k],
        ) by {
            assert(one.ensures(((k as usize),), vals@[k]));
        }
    }
    let mut y: usize = 1;
    while y <= ny
        invariant
            g.wf(),
            g.cols() == nx + 2,
            g.rows() == ny + 2,
            g0.cols() == nx + 2,
            g0.rows() == ny + 2,
            nx + 2 <= usize::MAX,
            ny + 2 <= usize::MAX,
            0 < nx,
            n == ny * nx,
            1 <= y <= ny + 1,
            vals@.len() == n,
            forall|k: int|
                0 <= k < n ==> cell_step(
                    g0,
                    nx as int,
                    ux@,
                    uy@,
                    *step,
                    (k % nx as int) + 1,
                    (k / nx as int) + 1,
                    #[trigger] vals@[k],
                ),
            forall|a: int, b: int|
                1 <= a <= nx && 1 <= b < y ==> cell_step(
                    g0,
                    nx as int,
                    ux@,
                    uy@,
                    *step,
                    a,
                    b,
                    #[trigger] g.at(a, b),
                ),
            forall|a: int, b: int|
                g0.valid(a, b) && !(1 <= a <= nx && 1 <= b < y) ==> #[trigger] g.at(a, b)
                    == g0.at(a, b),
        decreases ny + 1 - y,
    {
        let mut x: usize = 1;
        while x <= nx
            invariant
                g.wf(),
                g.cols() == nx + 2,
                g.rows() == ny + 2,
                g0.cols() == nx + 2,
                g0.rows() == ny + 2,
                nx + 2 <= usize::MAX,
                ny + 2 <= usize::MAX,
                0 < nx,
                n == ny * nx,
                1 <= y <= ny,
                1 <= x <= nx + 1,
                vals@.len() == n,
                forall|k: int|
                    0 <= k < n ==> cell_step(
                        g0,
                        nx as int,
                        ux@,
                        uy@,
                        *step,
                        (k % nx as int) + 1,
                        (k / nx as int) + 1,
                        #[trigger] vals@[k],
                    ),
                forall|a: int, b: int|
                    1 <= a <= nx && 1 <= b <= y && (b < y || a < x) ==> cell_step(
                        g0,
                        nx as int,
                        ux@,
                        uy@,
                        *step,
                        a,
                        b,
                        #[trigger] g.at(a, b),
                    ),
                forall|a: int, b: int|
                    g0.valid(a, b) && !(1 <= a <= nx && 1 <= b <= y && (b < y || a < x))
                        ==> #[trigger] g.at(a, b) == g0.at(a, b),
            decreases nx + 1 - x,
        {
            proof {
                crate::gitter::lemma_offset_in_range(nx as int, ny as int, x - 1, y - 1);
                lemma_encode(nx as int, x - 1, y - 1);
            }
            let k = (y - 1) * nx + (x - 1);
            let ghost prev = *g;
            g.set(x, y, vals[k]);
            proof {
                assert forall|a: int, b: int| g0.valid(a, b) && (a != x || b != y) implies #[trigger] g.at(
                    a,
                    b,
                ) == prev.at(a, b) by {}
                assert(g.at(x as int, y as int) == vals@[k as int]);
            }
            x = x + 1;
        }
        y = y + 1;
    }
}

} // verus!
