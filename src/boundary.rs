use vstd::prelude::*;
use crate::block::Field;
use crate::gitter::Gitter;

verus! {

/// How the ghost cells along one edge of a block are filled.
#[derive(PartialEq, Eq, Structural, Copy, Clone, Debug)]
pub enum BoundaryType {
    /// Zero gradient: ghost cells copy the adjacent interior cell.
    Outflow,
    /// Reflecting wall: the momentum normal to the wall changes sign.
    Wall,
    /// Ghost cells are supplied from outside for each step.
    Inflow,
    /// Ghost cells are filled from a neighbouring block.
    Connect,
    /// Ghost cells are never touched.
    Passive,
}

/// One of the four edges of a block.
#[derive(PartialEq, Eq, Structural, Copy, Clone, Debug)]
pub enum BoundaryEdge {
    BndLeft,
    BndRight,
    BndBottom,
    BndTop,
}

/// What happens to one field of a ghost cell when ghost cells are refreshed.
#[derive(PartialEq, Eq, Structural, Copy, Clone, Debug)]
pub enum GhostRule {
    /// The ghost cell keeps its value.
    Keep,
    /// The ghost cell takes the value of the adjacent interior cell.
    Copy,
    /// The ghost cell takes the negated value of the adjacent interior cell.
    Negate,
}

/// The momentum field normal to `edge`.
pub open spec fn normal_field(edge: BoundaryEdge) -> Field {
    match edge {
        BoundaryEdge::BndLeft | BoundaryEdge::BndRight => Field::Hu,
        BoundaryEdge::BndBottom | BoundaryEdge::BndTop => Field::Hv,
    }
}

/// The rule for field `f` of the ghost cells along `edge` under boundary `bt`:
/// an outflow edge copies depth and both momenta; a wall copies depth, bed
/// and the tangential momentum and negates the normal one; the other
/// boundaries leave their ghost cells alone.
pub open spec fn rule_of(bt: BoundaryType, edge: BoundaryEdge, f: Field) -> GhostRule {
    match bt {
        BoundaryType::Outflow => if f == Field::B {
            GhostRule::Keep
        } else {
            GhostRule::Copy
        },
        BoundaryType::Wall => if f == normal_field(edge) {
            GhostRule::Negate
        } else {
            GhostRule::Copy
        },
        _ => GhostRule::Keep,
    }
}

/// The rule for field `f` of the ghost cells along `edge` under boundary `bt`.
pub fn ghost_rule(bt: BoundaryType, edge: BoundaryEdge, f: Field) -> (r: GhostRule)
    ensures
        r == rule_of(bt, edge, f),
{
    match bt {
        BoundaryType::Outflow => {
            if f == Field::B {
                GhostRule::Keep
            } else {
                GhostRule::Copy
            }
        },
        BoundaryType::Wall => {
            let normal = match edge {
                BoundaryEdge::BndLeft | BoundaryEdge::BndRight => Field::Hu,
                BoundaryEdge::BndBottom | BoundaryEdge::BndTop => Field::Hv,
            };
            if f == normal {
                GhostRule::Negate
            } else {
                GhostRule::Copy
            }
        },
        _ => GhostRule::Keep,
    }
}

/// Number of ghost cells along `edge` that have an adjacent interior cell.
pub open spec fn edge_len(nx: int, ny: int, edge: BoundaryEdge) -> int {
    if nx < 1 || ny < 1 {
        0
    } else {
        match edge {
            BoundaryEdge::BndLeft | BoundaryEdge::BndRight => ny,
            BoundaryEdge::BndBottom | BoundaryEdge::BndTop => nx,
        }
    }
}

/// The `i`-th ghost cell along `edge`, for `1 <= i <= edge_len`.
pub open spec fn ghost_cell(nx: int, ny: int, edge: BoundaryEdge, i: int) -> (int, int) {
    match edge {
        BoundaryEdge::BndLeft => (0, i),
        BoundaryEdge::BndRight => (nx + 1, i),
        BoundaryEdge::BndBottom => (i, 0),
        BoundaryEdge::BndTop => (i, ny + 1),
    }
}

/// The interior cell adjacent to the `i`-th ghost cell along `edge`.
pub open spec fn inner_cell(nx: int, ny: int, edge: BoundaryEdge, i: int) -> (int, int) {
    match edge {
        BoundaryEdge::BndLeft => (1, i),
        BoundaryEdge::BndRight => (nx, i),
        BoundaryEdge::BndBottom => (i, 1),
        BoundaryEdge::BndTop => (i, ny),
    }
}

/// `(x, y)` is one of the ghost cells along `edge` that have an adjacent
/// interior cell (the corners are on no edge).
pub open spec fn on_edge(nx: int, ny: int, edge: BoundaryEdge, x: int, y: int) -> bool {
    nx >= 1 && ny >= 1 && match edge {
        BoundaryEdge::BndLeft => x == 0 && 1 <= y <= ny,
        BoundaryEdge::BndRight => x == nx + 1 && 1 <= y <= ny,
        BoundaryEdge::BndBottom => y == 0 && 1 <= x <= nx,
        BoundaryEdge::BndTop => y == ny + 1 && 1 <= x <= nx,
    }
}

/// `(x, y)` is a ghost cell on some edge.
pub open spec fn on_any_edge(nx: int, ny: int, x: int, y: int) -> bool {
    on_edge(nx, ny, BoundaryEdge::BndLeft, x, y) || on_edge(nx, ny, BoundaryEdge::BndRight, x, y)
        || on_edge(nx, ny, BoundaryEdge::BndBottom, x, y) || on_edge(
        nx,
        ny,
        BoundaryEdge::BndTop,
        x,
        y,
    )
}

/// After a refresh of `old` into `new` by `rule`, the `i`-th ghost cell along
/// `edge` holds what the rule asks of it.
pub open spec fn refreshed<T, N: Fn(T) -> T>(
    old: Gitter<T>,
    new: Gitter<T>,
    nx: int,
    ny: int,
    edge: BoundaryEdge,
    rule: GhostRule,
    negate: N,
    i: int,
) -> bool {
    let (gx, gy) = ghost_cell(nx, ny, edge, i);
    let (ix, iy) = inner_cell(nx, ny, edge, i);
    match rule {
        GhostRule::Keep => new.at(gx, gy) == old.at(gx, gy),
        GhostRule::Copy => new.at(gx, gy) == old.at(ix, iy),
        GhostRule::Negate => negate.ensures((old.at(ix, iy),), new.at(gx, gy)),
    }
}

/// Refreshes the ghost cells along `edge` of a field of `nx + 2` by `ny + 2`
/// cells by `rule`; every other cell keeps its value.
pub fn refresh_edge<T: Copy, N: Fn(T) -> T>(
    g: &mut Gitter<T>,
    nx: usize,
    ny: usize,
    edge: BoundaryEdge,
    rule: GhostRule,
    negate: &N,
)
    requires
        old(g).wf(),
        old(g).cols() == nx + 2,
        old(g).rows() == ny + 2,
        nx + 2 <= usize::MAX,
        ny + 2 <= usize::MAX,
        forall|v: T| negate.requires((v,)),
    ensures
        final(g).wf(),
        final(g).cols() == nx + 2,
        final(g).rows() == ny + 2,
        forall|i: int|
            1 <= i <= edge_len(nx as int, ny as int, edge) ==> #[trigger] refreshed(
                *old(g),
                *final(g),
                nx as int,
                ny as int,
                edge,
                rule,
                *negate,
                i,
            ),
        forall|x: int, y: int|
            old(g).valid(x, y) && !on_edge(nx as int, ny as int, edge, x, y)
                ==> #[trigger] final(g).at(x, y) == old(g).at(x, y),
{
    let ghost g0 = *g;
    if nx == 0 || ny == 0 || rule == GhostRule::Keep {
        return;
    }
    let len: usize = match edge {
        BoundaryEdge::BndLeft | BoundaryEdge::BndRight => ny,
        BoundaryEdge::BndBottom | BoundaryEdge::BndTop => nx,
    };
    let mut i: usize = 1;
    while i <= len
        invariant
            g.wf(),
            g.cols() == nx + 2,
            g.rows() == ny + 2,
            g0.wf(),
            g0.cols() == nx + 2,
            g0.rows() == ny + 2,
            nx >= 1,
            ny >= 1,
            nx + 2 <= usize::MAX,
            ny + 2 <= usize::MAX,
            len == edge_len(nx as int, ny as int, edge),
            1 <= i <= len + 1,
            rule != GhostRule::Keep,
            forall|v: T| negate.requires((v,)),
            forall|k: int|
                1 <= k < i ==> #[trigger] refreshed(
                    g0,
                    *g,
                    nx as int,
                    ny as int,
                    edge,
                    rule,
                    *negate,
                    k,
                ),
            forall|x: int, y: int|
                g0.valid(x, y) && !(on_edge(nx as int, ny as int, edge, x, y) && match edge {
                    BoundaryEdge::BndLeft | BoundaryEdge::BndRight => y < i,
                    BoundaryEdge::BndBottom | BoundaryEdge::BndTop => x < i,
                }) ==> #[trigger] g.at(x, y) == g0.at(x, y),
        decreases len + 1 - i,
    {
        let (gx, gy, ix, iy) = match edge {
            BoundaryEdge::BndLeft => (0, i, 1, i),
            BoundaryEdge::BndRight => (nx + 1, i, nx, i),
            BoundaryEdge::BndBottom => (i, 0, i, 1),
            BoundaryEdge::BndTop => (i, ny + 1, i, ny),
        };
        let inner = g.get(ix, iy);
        let v = if rule == GhostRule::Negate {
            negate(inner)
        } else {
            inner
        };
        let ghost prev = *g;
        g.set(gx, gy, v);
        proof {
            assert forall|x: int, y: int|
                g0.valid(x, y) && (x != gx || y != gy) implies #[trigger] g.at(x, y) == prev.at(
                x,
                y,
            ) by {}
            assert forall|k: int| 1 <= k < i + 1 implies #[trigger] refreshed(
                g0,
                *g,
                nx as int,
                ny as int,
                edge,
                rule,
                *negate,
                k,
            ) by {
                if k < i {
                    assert(refreshed(g0, prev, nx as int, ny as int, edge, rule, *negate, k));
                }
            }
        }
        i = i + 1;
    }
}

/// Refreshes the ghost cells along all four edges of field `f` of a block,
/// each edge by the rule that its boundary type gives; every other cell
/// keeps its value.
pub fn refresh_grid<T: Copy, N: Fn(T) -> T>(
    g: &mut Gitter<T>,
    nx: usize,
    ny: usize,
    f: Field,
    bnd: [BoundaryType; 4],
    negate: &N,
)
    requires
        old(g).wf(),
        old(g).cols() == nx + 2,
        old(g).rows() == ny + 2,
        nx + 2 <= usize::MAX,
        ny + 2 <= usize::MAX,
        forall|v: T| negate.requires((v,)),
    ensures
        final(g).wf(),
        final(g).cols() == nx + 2,
        final(g).rows() == ny + 2,
        forall|e: BoundaryEdge, i: int|
            1 <= i <= edge_len(nx as int, ny as int, e) ==> #[trigger] refreshed(
                *old(g),
                *final(g),
                nx as int,
                ny as int,
                e,
                rule_of(bnd[edge_slot(e)], e, f),
                *negate,
                i,
            ),
        forall|x: int, y: int|
            old(g).valid(x, y) && !on_any_edge(nx as int, ny as int, x, y)
                ==> #[trigger] final(g).at(x, y) == old(g).at(x, y),
{
    let ghost g0 = *g;
    let left = BoundaryEdge::BndLeft;
    let right = BoundaryEdge::BndRight;
    let bottom = BoundaryEdge::BndBottom;
    let top = BoundaryEdge::BndTop;
    refresh_edge(g, nx, ny, left, ghost_rule(bnd[0], left, f), negate);
    let ghost g1 = *g;
    refresh_edge(g, nx, ny, right, ghost_rule(bnd[1], right, f), negate);
    let ghost g2 = *g;
    refresh_edge(g, nx, ny, bottom, ghost_rule(bnd[2], bottom, f), negate);
    let ghost g3 = *g;
    refresh_edge(g, nx, ny, top, ghost_rule(bnd[3], top, f), negate);
    proof {
        let (w, t) = (nx as int, ny as int);
        assert forall|e: BoundaryEdge, i: int|
            1 <= i <= edge_len(w, t, e) implies #[trigger] refreshed(
            g0,
            *g,
            w,
            t,
            e,
            rule_of(bnd[edge_slot(e)], e, f),
            *negate,
            i,
        ) by {
            let (gx, gy) = ghost_cell(w, t, e, i);
            let (ix, iy) = inner_cell(w, t, e, i);
            assert(g0.at(ix, iy) == g1.at(ix, iy));
            assert(g1.at(ix, iy) == g2.at(ix, iy));
            assert(g2.at(ix, iy) == g3.at(ix, iy));
            match e {
                BoundaryEdge::BndLeft => {
                    assert(refreshed(g0, g1, w, t, e, rule_of(bnd[0], e, f), *negate, i));
                    assert(g1.at(gx, gy) == g2.at(gx, gy));
                    assert(g2.at(gx, gy) == g3.at(gx, gy));
                    assert(g3.at(gx, gy) == g.at(gx, gy));
                },
                BoundaryEdge::BndRight => {
                    assert(refreshed(g1, g2, w, t, e, rule_of(bnd[1], e, f), *negate, i));
                    assert(g0.at(gx, gy) == g1.at(gx, gy));
                    assert(g2.at(gx, gy) == g3.at(gx, gy));
                    assert(g3.at(gx, gy) == g.at(gx, gy));
                },
                BoundaryEdge::BndBottom => {
                    assert(refreshed(g2, g3, w, t, e, rule_of(bnd[2], e, f), *negate, i));
                    assert(g0.at(gx, gy) == g1.at(gx, gy));
                    assert(g1.at(gx, gy) == g2.at(gx, gy));
                    assert(g3.at(gx, gy) == g.at(gx, gy));
                },
                BoundaryEdge::BndTop => {
                    assert(refreshed(g3, *g, w, t, e, rule_of(bnd[3], e, f), *negate, i));
                    assert(g0.at(gx, gy) == g1.at(gx, gy));
                    assert(g1.at(gx, gy) == g2.at(gx, gy));
                    assert(g2.at(gx, gy) == g3.at(gx, gy));
                },
            }
        }
    }
}

/// Where the boundary type of `e` stands in a block's list of four, which
/// runs left, right, bottom, top.
pub open spec fn edge_slot(e: BoundaryEdge) -> int {
    match e {
        BoundaryEdge::BndLeft => 0,
        BoundaryEdge::BndRight => 1,
        BoundaryEdge::BndBottom => 2,
        BoundaryEdge::BndTop => 3,
    }
}

} // verus!
