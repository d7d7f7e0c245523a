use vstd::prelude::*;

use crate::delta::hex_norm;
use crate::direction::Direction;
use crate::position::Position;
use crate::unit::PlayerId;

verus! {

/// Reference into the external attack content table.
#[derive(Debug, Clone, Copy, PartialEq, Eq, Hash, Structural)]
pub struct AttackId(pub u16);

/// Pierce, blunt and slash components of an attack.
#[derive(Debug, Clone, Copy, PartialEq, Eq, Structural)]
pub struct DamageProfile {
    pub pierce: u8,
    pub blunt: u8,
    pub slash: u8,
}

/// The annulus within which a target may stand: at least the inner radius
/// away, at most the outer.
#[derive(Debug, Clone, Copy, PartialEq, Eq, Structural)]
pub struct AttackRange {
    pub inner_radius: u8,
    pub outer_radius: u8,
}

/// The shape of cells an attack affects, relative to its target.
#[derive(Debug, Clone, Copy, PartialEq, Eq, Structural)]
pub enum AoePattern {
    Single,
    Sides,
    Radius(u8),
    Line(u8),
    Cone(u8),
}

/// Whom an attack may be aimed at, relative to the attacker's owner.
#[derive(Debug, Clone, Copy, PartialEq, Eq, Structural)]
pub enum TargetFilter {
    Enemy,
    Ally,
    Any,
}

/// External content describing one attack, consumed read-only.
#[derive(Debug, Clone, Copy, PartialEq, Eq, Structural)]
pub struct AttackDefinition {
    pub base_damage: i32,
    pub damage_type: DamageProfile,
    pub range: AttackRange,
    pub aoe: AoePattern,
    pub target: TargetFilter,
}

/// The signed health delta one strike deals. The damage profile's components
/// add to the magnitude of the base damage, and the base damage's sign is
/// kept: a non-negative base harms, a negative base heals. This fixes one
/// deterministic, monotonic formula; the exact content-side reduction rules
/// live outside this engine.
pub open spec fn spec_health_delta(def: AttackDefinition) -> int {
    let profile = def.damage_type.pierce + def.damage_type.blunt + def.damage_type.slash;
    if def.base_damage >= 0 {
        -(def.base_damage + profile)
    } else {
        -def.base_damage + profile
    }
}

/// The signed health delta of one strike with the given attack.
pub fn health_delta(def: &AttackDefinition) -> (r: i64)
    ensures
        r == spec_health_delta(*def),
{
    let profile: i64 = def.damage_type.pierce as i64 + def.damage_type.blunt as i64
        + def.damage_type.slash as i64;
    if def.base_damage >= 0 {
        -(def.base_damage as i64 + profile)
    } else {
        -(def.base_damage as i64) + profile
    }
}

/// Whether the filter admits a target owned by `target_owner` for an
/// attacker owned by `attacker_owner`.
pub open spec fn filter_admits(f: TargetFilter, attacker_owner: PlayerId, target_owner: PlayerId) -> bool {
    match f {
        TargetFilter::Enemy => attacker_owner != target_owner,
        TargetFilter::Ally => attacker_owner == target_owner,
        TargetFilter::Any => true,
    }
}

/// Whether the filter admits the target's owner.
pub fn admits(f: &TargetFilter, attacker_owner: PlayerId, target_owner: PlayerId) -> (r: bool)
    ensures
        r == filter_admits(*f, attacker_owner, target_owner),
{
    match f {
        TargetFilter::Enemy => attacker_owner.0 != target_owner.0,
        TargetFilter::Ally => attacker_owner.0 == target_owner.0,
        TargetFilter::Any => true,
    }
}

/// Whether a distance lies within the range's annulus.
pub open spec fn in_range(range: AttackRange, dist: int) -> bool {
    range.inner_radius <= dist && dist <= range.outer_radius
}

/// The direction one step clockwise.
pub open spec fn rotate_cw(d: Direction) -> Direction {
    match d {
        Direction::Right => Direction::DownRight,
        Direction::DownRight => Direction::DownLeft,
        Direction::DownLeft => Direction::Left,
        Direction::Left => Direction::UpLeft,
        Direction::UpLeft => Direction::UpRight,
        Direction::UpRight => Direction::Right,
    }
}

/// The direction one step counter-clockwise.
pub open spec fn rotate_ccw(d: Direction) -> Direction {
    match d {
        Direction::Right => Direction::UpRight,
        Direction::UpRight => Direction::UpLeft,
        Direction::UpLeft => Direction::Left,
        Direction::Left => Direction::DownLeft,
        Direction::DownLeft => Direction::DownRight,
        Direction::DownRight => Direction::Right,
    }
}

/// The hex axis along which an offset points, when the offset is a positive
/// multiple of a unit direction vector.
pub open spec fn axis_dir(dx: int, dy: int) -> Option<Direction> {
    if dx > 0 && dy == 0 {
        Some(Direction::Right)
    } else if dx < 0 && dy == 0 {
        Some(Direction::Left)
    } else if dx == 0 && dy > 0 {
        Some(Direction::UpRight)
    } else if dx == 0 && dy < 0 {
        Some(Direction::DownLeft)
    } else if dx > 0 && dy == -dx {
        Some(Direction::DownRight)
    } else if dx < 0 && dy == -dx {
        Some(Direction::UpLeft)
    } else {
        None
    }
}

/// The axis from one position towards another, when they are hex-aligned.
pub fn axis_dir_between(a: &Position, b: &Position) -> (r: Option<Direction>)
    requires
        a.x <= 0x7fff,
        a.y <= 0x7fff,
        b.x <= 0x7fff,
        b.y <= 0x7fff,
    ensures
        r == axis_dir(b.x - a.x, b.y - a.y),
{
    let dx: i32 = b.x as i32 - a.x as i32;
    let dy: i32 = b.y as i32 - a.y as i32;
    if dx > 0 && dy == 0 {
        Some(Direction::Right)
    } else if dx < 0 && dy == 0 {
        Some(Direction::Left)
    } else if dx == 0 && dy > 0 {
        Some(Direction::UpRight)
    } else if dx == 0 && dy < 0 {
        Some(Direction::DownLeft)
    } else if dx > 0 && dy == -dx {
        Some(Direction::DownRight)
    } else if dx < 0 && dy == -dx {
        Some(Direction::UpLeft)
    } else {
        None
    }
}

/// Whether cell `c` lies in the area an attack from `attacker` on `target`
/// affects:
/// - `Single` and `Cone` affect the target cell (a cone's sector beyond it
///   is content-defined and not fixed by this engine);
/// - `Sides` affects the target cell and, when attacker and target are
///   hex-aligned, the two flank cells one rotation step off the attack
///   direction;
/// - `Radius(r)` affects every cell within `r` of the target except the
///   attacker's own cell;
/// - `Line(n)` affects the target cell and up to `n` cells straight behind
///   it along the attack direction, when hex-aligned.
pub open spec fn cell_affected(
    pattern: AoePattern,
    attacker: Position,
    target: Position,
    c: Position,
) -> bool {
    match pattern {
        AoePattern::Single => c == target,
        AoePattern::Cone(_) => c == target,
        AoePattern::Sides => {
            ||| c == target
            ||| (axis_dir(target.x - attacker.x, target.y - attacker.y) matches Some(d) && {
                ||| (c.x == target.x + rotate_cw(d).spec_vec().dx && c.y == target.y + rotate_cw(
                    d,
                ).spec_vec().dy)
                ||| (c.x == target.x + rotate_ccw(d).spec_vec().dx && c.y == target.y + rotate_ccw(
                    d,
                ).spec_vec().dy)
            })
        },
        AoePattern::Radius(r) => hex_norm(c.x - target.x, c.y - target.y) <= r && c != attacker,
        AoePattern::Line(n) => {
            ||| c == target
            ||| (axis_dir(target.x - attacker.x, target.y - attacker.y) matches Some(d) && axis_dir(
                c.x - target.x,
                c.y - target.y,
            ) == Some(d) && hex_norm(c.x - target.x, c.y - target.y) <= n)
        },
    }
}

/// Whether cell `c` is affected, for board-sized coordinates.
pub fn cell_affected_exec(
    pattern: &AoePattern,
    attacker: &Position,
    target: &Position,
    c: &Position,
) -> (r: bool)
    requires
        attacker.x <= 0x7fff,
        attacker.y <= 0x7fff,
        target.x <= 0x7fff,
        target.y <= 0x7fff,
        c.x <= 0x7fff,
        c.y <= 0x7fff,
    ensures
        r == cell_affected(*pattern, *attacker, *target, *c),
{
    let cx: i32 = c.x as i32;
    let cy: i32 = c.y as i32;
    let tx: i32 = target.x as i32;
    let ty: i32 = target.y as i32;
    match pattern {
        AoePattern::Single => cx == tx && cy == ty,
        AoePattern::Cone(_) => cx == tx && cy == ty,
        AoePattern::Sides => {
            if cx == tx && cy == ty {
                true
            } else {
                match axis_dir_between(attacker, target) {
                    Some(d) => {
                        let vcw = match d {
                            Direction::Right => Direction::DownRight,
                            Direction::DownRight => Direction::DownLeft,
                            Direction::DownLeft => Direction::Left,
                            Direction::Left => Direction::UpLeft,
                            Direction::UpLeft => Direction::UpRight,
                            Direction::UpRight => Direction::Right,
                        }.dir_vec();
                        let vccw = match d {
                            Direction::Right => Direction::UpRight,
                            Direction::UpRight => Direction::UpLeft,
                            Direction::UpLeft => Direction::Left,
                            Direction::Left => Direction::DownLeft,
                            Direction::DownLeft => Direction::DownRight,
                            Direction::DownRight => Direction::Right,
                        }.dir_vec();
                        (cx == tx + vcw.dx as i32 && cy == ty + vcw.dy as i32) || (cx == tx
                            + vccw.dx as i32 && cy == ty + vccw.dy as i32)
                    },
                    None => false,
                }
            }
        },
        AoePattern::Radius(r) => {
            let dist = target.dist(c);
            dist <= *r as i32 && !(c.x == attacker.x && c.y == attacker.y)
        },
        AoePattern::Line(n) => {
            if cx == tx && cy == ty {
                true
            } else {
                match axis_dir_between(attacker, target) {
                    Some(d) => {
                        match axis_dir_between(target, c) {
                            Some(d2) => d2 == d && target.dist(c) <= *n as i32,
                            None => false,
                        }
                    },
                    None => false,
                }
            }
        },
    }
}

} // verus!
