use vstd::prelude::*;

verus! {

/// How the two states at an interface are prepared before the waves are
/// computed, from whether each side is wet (depth at least the dry tolerance).
#[derive(PartialEq, Eq, Structural, Copy, Clone, Debug)]
pub enum Reconstruction {
    /// Both sides wet: both states are used as given.
    AsGiven,
    /// Left wet, right dry: the right state becomes the mirror of the left
    /// one (same depth and bed, negated momentum), a wall at the dry front.
    MirrorLeft,
    /// Right wet, left dry: the left state becomes the mirror of the right one.
    MirrorRight,
    /// Both dry: both sides take the dry tolerance as depth, with zero
    /// momentum and zero bed.
    BothDry,
}

/// Which reconstruction an interface gets.
pub open spec fn reconstruction_of(left_wet: bool, right_wet: bool) -> Reconstruction {
    if left_wet && right_wet {
        Reconstruction::AsGiven
    } else if left_wet {
        Reconstruction::MirrorLeft
    } else if right_wet {
        Reconstruction::MirrorRight
    } else {
        Reconstruction::BothDry
    }
}

/// The same reconstruction seen from the other side of the interface.
pub open spec fn mirrored(r: Reconstruction) -> Reconstruction {
    match r {
        Reconstruction::MirrorLeft => Reconstruction::MirrorRight,
        Reconstruction::MirrorRight => Reconstruction::MirrorLeft,
        _ => r,
    }
}

/// Swapping the two sides of an interface swaps the two mirror
/// reconstructions and keeps the other two.
pub proof fn lemma_reconstruction_mirror(left_wet: bool, right_wet: bool)
    ensures
        reconstruction_of(right_wet, left_wet) == mirrored(reconstruction_of(left_wet, right_wet)),
{
}

/// Which reconstruction an interface gets.
pub fn reconstruction(left_wet: bool, right_wet: bool) -> (r: Reconstruction)
    ensures
        r == reconstruction_of(left_wet, right_wet),
        r == Reconstruction::AsGiven <==> left_wet && right_wet,
        r == Reconstruction::MirrorLeft <==> left_wet && !right_wet,
        r == Reconstruction::MirrorRight <==> !left_wet && right_wet,
        r == Reconstruction::BothDry <==> !left_wet && !right_wet,
{
    if left_wet {
        if right_wet {
            Reconstruction::AsGiven
        } else {
            Reconstruction::MirrorLeft
        }
    } else if right_wet {
        Reconstruction::MirrorRight
    } else {
        Reconstruction::BothDry
    }
}

/// Which cell of an interface a wave's contribution goes to.
#[derive(PartialEq, Eq, Structural, Copy, Clone, Debug)]
pub enum WaveSide {
    /// The whole wave goes to the left cell.
    Left,
    /// The whole wave goes to the right cell.
    Right,
    /// Half of the wave goes to each cell.
    Split,
}

/// Where a wave goes.
pub open spec fn side_of(leftward: bool, rightward: bool) -> WaveSide {
    if leftward {
        WaveSide::Left
    } else if rightward {
        WaveSide::Right
    } else {
        WaveSide::Split
    }
}

/// The same side seen from the other side of the interface.
pub open spec fn flipped(s: WaveSide) -> WaveSide {
    match s {
        WaveSide::Left => WaveSide::Right,
        WaveSide::Right => WaveSide::Left,
        WaveSide::Split => WaveSide::Split,
    }
}

/// Reversing a wave's direction (a speed that cannot be both below minus
/// the tolerance and above it) sends it to the other cell, and a wave within
/// the tolerance stays split.
pub proof fn lemma_wave_side_mirror(leftward: bool, rightward: bool)
    requires
        !(leftward && rightward),
    ensures
        side_of(rightward, leftward) == flipped(side_of(leftward, rightward)),
{
}

/// Where a wave goes, from whether its speed is below minus the zero
/// tolerance (`leftward`) or above the zero tolerance (`rightward`): a
/// leftward wave to the left cell, a rightward one to the right cell, and a
/// wave within the tolerance half to each.
pub fn wave_side(leftward: bool, rightward: bool) -> (r: WaveSide)
    ensures
        r == side_of(leftward, rightward),
        r == WaveSide::Left <==> leftward,
        r == WaveSide::Right <==> !leftward && rightward,
        r == WaveSide::Split <==> !leftward && !rightward,
{
    if leftward {
        WaveSide::Left
    } else if rightward {
        WaveSide::Right
    } else {
        WaveSide::Split
    }
}

} // verus!
