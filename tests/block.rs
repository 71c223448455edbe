use glacier::block::{Block, Field};
use glacier::boundary::{ghost_rule, BoundaryEdge, BoundaryType, GhostRule};
use glacier::fwave::{reconstruction, wave_side, Reconstruction, WaveSide};
use glacier::gitter::Gitter;

const NX: usize = 3;
const NY: usize = 2;

fn id(x: usize, y: usize) -> i64 {
    (y * 100 + x) as i64
}

fn field(offset: i64) -> Gitter<i64> {
    let mut g = Gitter::new(NX + 2, NY + 2, 0i64);
    for y in 0..NY + 2 {
        for x in 0..NX + 2 {
            g.set(x, y, offset + id(x, y));
        }
    }
    g
}

fn labelled_block(bnd: [BoundaryType; 4]) -> Block<i64> {
    Block::from_fields(NX, NY, 1, 1, field(0), field(1000), field(2000), field(3000), bnd).unwrap()
}

#[test]
fn new_block_has_walls_and_fill() {
    let k = Block::new(3, 2, 0.5f32, 0.25f32, 0.0f32);
    assert_eq!(k.get_nx(), 3);
    assert_eq!(k.get_ny(), 2);
    assert_eq!(k.get_dx(), 0.5);
    assert_eq!(k.get_dy(), 0.25);
    assert_eq!(k.grid(Field::H).get_cols(), 5);
    assert_eq!(k.grid(Field::B).get_rows(), 4);
    assert_eq!(k.get(Field::Hv, 4, 3), 0.0);
    assert_eq!(k.get_boundary(BoundaryEdge::BndTop), BoundaryType::Wall);
}

#[test]
fn from_fields_checks_sizes() {
    let w = [BoundaryType::Wall; 4];
    assert!(Block::from_fields(NX, NY, 1, 1, field(0), field(0), field(0), field(0), w).is_some());
    let small = Gitter::new(NX + 1, NY + 2, 0i64);
    assert!(Block::from_fields(NX, NY, 1, 1, field(0), small, field(0), field(0), w).is_none());
}

#[test]
fn flat_index_round_trip() {
    let k = labelled_block([BoundaryType::Wall; 4]);
    assert_eq!(k.calculate_flat_index(2, 1), 11);
    assert_eq!(k.calculate_gitter_index(11), (2, 1));
    assert_eq!(k.calculate_gitter_index(0), (0, 0));
    assert_eq!(k.calculate_gitter_index(19), (3, 4));
}

#[test]
fn sweep_x_pairs_left_and_right_cells() {
    let k = labelled_block([BoundaryType::Wall; 4]);
    let r = k.sweep_x(&|hl, hr, ul, ur, bl, br| (hl, hr, ul, ur, bl, br));
    assert_eq!(r.len(), NY * (NX + 1));
    for y in 1..=NY {
        for x in 1..=NX + 1 {
            let (hl, hr, ul, ur, bl, br) = r[(y - 1) * (NX + 1) + (x - 1)];
            assert_eq!((hl, hr), (id(x - 1, y), id(x, y)));
            assert_eq!((ul, ur), (1000 + id(x - 1, y), 1000 + id(x, y)));
            assert_eq!((bl, br), (3000 + id(x - 1, y), 3000 + id(x, y)));
        }
    }
}

#[test]
fn sweep_y_pairs_lower_and_upper_cells() {
    let k = labelled_block([BoundaryType::Wall; 4]);
    let r = k.sweep_y(&|hl, hr, vl, vr, bl, br| (hl, hr, vl, vr, bl, br));
    assert_eq!(r.len(), (NY + 1) * NX);
    for y in 1..=NY + 1 {
        for x in 1..=NX {
            let (hl, hr, vl, vr, bl, br) = r[(y - 1) * NX + (x - 1)];
            assert_eq!((hl, hr), (id(x, y - 1), id(x, y)));
            assert_eq!((vl, vr), (2000 + id(x, y - 1), 2000 + id(x, y)));
            assert_eq!((bl, br), (3000 + id(x, y - 1), 3000 + id(x, y)));
        }
    }
}

#[test]
fn update_cells_reads_the_four_interfaces() {
    let mut k = labelled_block([BoundaryType::Wall; 4]);
    let ux: Vec<i64> = (0..(NY * (NX + 1)) as i64).collect();
    let uy: Vec<i64> = (0..((NY + 1) * NX) as i64).collect();
    let before_hu = k.grid(Field::Hu).as_slice().to_vec();
    k.update_cells(Field::H, &ux, &uy, &|c, l, r, d, u| {
        c * 100_000_000 + l * 1_000_000 + r * 10_000 + d * 100 + u
    });
    // cell (2, 1): left interface 1, right 2, lower 1, upper 4
    assert_eq!(k.get(Field::H, 2, 1), id(2, 1) * 100_000_000 + 1_000_000 + 20_000 + 100 + 4);
    // cell (3, 2): left interface 6, right 7, lower 5, upper 8
    assert_eq!(k.get(Field::H, 3, 2), id(3, 2) * 100_000_000 + 6_000_000 + 70_000 + 500 + 8);
    assert_eq!(k.get(Field::H, 0, 1), id(0, 1));
    assert_eq!(k.get(Field::H, 4, 3), id(4, 3));
    assert_eq!(k.grid(Field::Hu).as_slice(), &before_hu[..]);
}

#[test]
fn refresh_follows_each_edge_rule() {
    let mut k = labelled_block([
        BoundaryType::Wall,
        BoundaryType::Outflow,
        BoundaryType::Passive,
        BoundaryType::Wall,
    ]);
    k.set_boundary(BoundaryEdge::BndBottom, BoundaryType::Inflow);
    assert_eq!(k.get_boundary(BoundaryEdge::BndBottom), BoundaryType::Inflow);
    k.refresh_ghosts(&|v: i64| -v);
    // left wall: h and b copied, hu negated, hv copied
    assert_eq!(k.get(Field::H, 0, 1), id(1, 1));
    assert_eq!(k.get(Field::Hu, 0, 2), -(1000 + id(1, 2)));
    assert_eq!(k.get(Field::Hv, 0, 2), 2000 + id(1, 2));
    assert_eq!(k.get(Field::B, 0, 1), 3000 + id(1, 1));
    // right outflow: h, hu, hv copied, b kept
    assert_eq!(k.get(Field::H, 4, 2), id(3, 2));
    assert_eq!(k.get(Field::Hu, 4, 1), 1000 + id(3, 1));
    assert_eq!(k.get(Field::Hv, 4, 1), 2000 + id(3, 1));
    assert_eq!(k.get(Field::B, 4, 1), 3000 + id(4, 1));
    // bottom inflow: untouched
    assert_eq!(k.get(Field::H, 2, 0), id(2, 0));
    assert_eq!(k.get(Field::Hv, 2, 0), 2000 + id(2, 0));
    // top wall: hv negated, hu copied
    assert_eq!(k.get(Field::Hv, 1, 3), -(2000 + id(1, 2)));
    assert_eq!(k.get(Field::Hu, 1, 3), 1000 + id(1, 2));
    assert_eq!(k.get(Field::H, 3, 3), id(3, 2));
    // corners and interior untouched
    assert_eq!(k.get(Field::H, 0, 0), id(0, 0));
    assert_eq!(k.get(Field::H, 4, 3), id(4, 3));
    assert_eq!(k.get(Field::Hu, 2, 2), 1000 + id(2, 2));
}

#[test]
fn fix_cells_changes_interior_only() {
    let mut k = labelled_block([BoundaryType::Wall; 4]);
    k.fix_cells(&|h: i64, hu: i64, hv: i64| {
        if h < 200 {
            (0, 0, 0)
        } else {
            (h, hu, hv)
        }
    });
    assert_eq!(k.get(Field::H, 1, 1), 0);
    assert_eq!(k.get(Field::Hu, 3, 1), 0);
    assert_eq!(k.get(Field::Hv, 2, 2), 2000 + id(2, 2));
    assert_eq!(k.get(Field::H, 0, 1), id(0, 1));
    assert_eq!(k.get(Field::B, 1, 1), 3000 + id(1, 1));
}

#[test]
fn walls_keep_mass_under_a_conservative_flux() {
    let mut h = Gitter::new(NX + 2, NY + 2, 0i64);
    let depths = [[5, 1, 9], [2, 8, 4]];
    for y in 1..=NY {
        for x in 1..=NX {
            h.set(x, y, depths[y - 1][x - 1]);
        }
    }
    let z = || Gitter::new(NX + 2, NY + 2, 0i64);
    let mut k = Block::from_fields(NX, NY, 1, 1, h, z(), z(), z(), [BoundaryType::Wall; 4]).unwrap();
    let mass = |k: &Block<i64>| -> i64 {
        let mut s = 0;
        for y in 1..=NY {
            for x in 1..=NX {
                s += k.get(Field::H, x, y);
            }
        }
        s
    };
    let start = mass(&k);
    for _ in 0..5 {
        k.refresh_ghosts(&|v: i64| -v);
        let ux = k.sweep_x(&|hl: i64, hr: i64, _, _, _, _| hr - hl);
        let uy = k.sweep_y(&|hl: i64, hr: i64, _, _, _, _| hr - hl);
        k.update_cells(Field::H, &ux, &uy, &|c, l, r, d, u| c + r - l + u - d);
        assert_eq!(mass(&k), start);
    }
}

#[test]
fn ghost_rules() {
    assert_eq!(ghost_rule(BoundaryType::Wall, BoundaryEdge::BndLeft, Field::Hu), GhostRule::Negate);
    assert_eq!(ghost_rule(BoundaryType::Wall, BoundaryEdge::BndRight, Field::Hv), GhostRule::Copy);
    assert_eq!(ghost_rule(BoundaryType::Wall, BoundaryEdge::BndBottom, Field::Hv), GhostRule::Negate);
    assert_eq!(ghost_rule(BoundaryType::Wall, BoundaryEdge::BndTop, Field::B), GhostRule::Copy);
    assert_eq!(ghost_rule(BoundaryType::Outflow, BoundaryEdge::BndTop, Field::Hv), GhostRule::Copy);
    assert_eq!(ghost_rule(BoundaryType::Outflow, BoundaryEdge::BndLeft, Field::B), GhostRule::Keep);
    assert_eq!(ghost_rule(BoundaryType::Inflow, BoundaryEdge::BndLeft, Field::H), GhostRule::Keep);
    assert_eq!(ghost_rule(BoundaryType::Connect, BoundaryEdge::BndRight, Field::Hu), GhostRule::Keep);
    assert_eq!(ghost_rule(BoundaryType::Passive, BoundaryEdge::BndTop, Field::H), GhostRule::Keep);
}

#[test]
fn wet_dry_reconstruction() {
    assert_eq!(reconstruction(true, true), Reconstruction::AsGiven);
    assert_eq!(reconstruction(true, false), Reconstruction::MirrorLeft);
    assert_eq!(reconstruction(false, true), Reconstruction::MirrorRight);
    assert_eq!(reconstruction(false, false), Reconstruction::BothDry);
}

#[test]
fn upwind_sides() {
    assert_eq!(wave_side(true, false), WaveSide::Left);
    assert_eq!(wave_side(false, true), WaveSide::Right);
    assert_eq!(wave_side(false, false), WaveSide::Split);
}

#[test]
fn mirrored_interfaces_swap_decisions() {
    for (l, r) in [(true, true), (true, false), (false, true), (false, false)] {
        let swapped = match reconstruction(l, r) {
            Reconstruction::MirrorLeft => Reconstruction::MirrorRight,
            Reconstruction::MirrorRight => Reconstruction::MirrorLeft,
            other => other,
        };
        assert_eq!(reconstruction(r, l), swapped);
    }
    assert_eq!(wave_side(true, false), WaveSide::Left);
    assert_eq!(wave_side(false, true), WaveSide::Right);
    assert_eq!(wave_side(false, false), WaveSide::Split);
}
