use engine::combat::{
    cell_affected_exec, health_delta, AoePattern, AttackDefinition, AttackRange, DamageProfile,
    TargetFilter,
};
use engine::position::Position;
use engine::turn::UnitQueue;
use engine::unit::{PlayerId, Unit, UnitClassId, UnitId};

fn unit(id: u32, x: usize, y: usize) -> Unit {
    Unit::new(UnitClassId(1), PlayerId(1), Position::new(x, y), UnitId(id))
}

#[test]
fn queue_orders_by_speed_then_id() {
    let units = vec![unit(2, 0, 0), unit(0, 1, 0), unit(1, 2, 0)];
    let q = UnitQueue::new(&units);
    // All effective speeds are equal, so the deterministic tie-break by
    // ascending id decides the whole order.
    assert_eq!(q.remaining(), vec![UnitId(0), UnitId(1), UnitId(2)]);
    assert_eq!(q.peek(), Some(UnitId(0)));
}

#[test]
fn queue_pops_front_and_pushes_back() {
    let units = vec![unit(0, 0, 0), unit(1, 1, 0)];
    let mut q = UnitQueue::new(&units);
    assert_eq!(q.next_unit(), Some(UnitId(0)));
    q.push_unit(UnitId(9));
    assert_eq!(q.remaining(), vec![UnitId(1), UnitId(9)]);
    assert_eq!(q.next_unit(), Some(UnitId(1)));
    assert_eq!(q.next_unit(), Some(UnitId(9)));
    assert_eq!(q.next_unit(), None);
    assert_eq!(q.peek(), None);
}

#[test]
fn queue_removal_keeps_relative_order() {
    let units = vec![unit(0, 0, 0), unit(1, 1, 0), unit(2, 2, 0), unit(3, 3, 0)];
    let mut q = UnitQueue::new(&units);
    q.remove_unit(UnitId(1));
    assert_eq!(q.remaining(), vec![UnitId(0), UnitId(2), UnitId(3)]);
    q.remove_unit(UnitId(7));
    assert_eq!(q.remaining(), vec![UnitId(0), UnitId(2), UnitId(3)]);
}

#[test]
fn queue_reset_and_recompute_sort_again() {
    let units = vec![unit(5, 0, 0), unit(3, 1, 0), unit(4, 2, 0)];
    let mut q = UnitQueue::new(&[]);
    assert_eq!(q.remaining(), Vec::<UnitId>::new());
    q.reset_from_game(&units);
    assert_eq!(q.remaining(), vec![UnitId(3), UnitId(4), UnitId(5)]);
    q.push_unit(UnitId(1));
    q.recompute_from_units(&units);
    assert_eq!(q.remaining(), vec![UnitId(1), UnitId(3), UnitId(4), UnitId(5)]);
}

#[test]
fn damage_formula_is_signed_and_additive() {
    let strike = AttackDefinition {
        base_damage: 10,
        damage_type: DamageProfile { pierce: 1, blunt: 2, slash: 3 },
        range: AttackRange { inner_radius: 0, outer_radius: 2 },
        aoe: AoePattern::Single,
        target: TargetFilter::Enemy,
    };
    assert_eq!(health_delta(&strike), -16);
    let mend = AttackDefinition { base_damage: -5, ..strike };
    assert_eq!(health_delta(&mend), 11);
    let same = AttackDefinition { ..strike };
    // Identical inputs always yield the identical delta.
    assert_eq!(health_delta(&strike), health_delta(&same));
}

#[test]
fn aoe_patterns_pick_the_documented_cells() {
    let attacker = Position::new(2, 2);
    let target = Position::new(4, 2);
    // Single: the target cell alone.
    assert!(cell_affected_exec(&AoePattern::Single, &attacker, &target, &target));
    assert!(!cell_affected_exec(&AoePattern::Single, &attacker, &target, &Position::new(3, 2)));
    // Line(2): the target plus cells straight behind it, away from the
    // attacker.
    assert!(cell_affected_exec(&AoePattern::Line(2), &attacker, &target, &Position::new(5, 2)));
    assert!(cell_affected_exec(&AoePattern::Line(2), &attacker, &target, &Position::new(6, 2)));
    assert!(!cell_affected_exec(&AoePattern::Line(2), &attacker, &target, &Position::new(7, 2)));
    assert!(!cell_affected_exec(&AoePattern::Line(2), &attacker, &target, &Position::new(3, 2)));
    // Radius(1): everything within one step of the target, except the
    // attacker's own cell.
    assert!(cell_affected_exec(&AoePattern::Radius(1), &attacker, &target, &Position::new(3, 2)));
    assert!(!cell_affected_exec(&AoePattern::Radius(1), &attacker, &target, &attacker));
    // Sides: the target and its two flank cells off the attack axis.
    assert!(cell_affected_exec(&AoePattern::Sides, &attacker, &target, &target));
    assert!(cell_affected_exec(&AoePattern::Sides, &attacker, &target, &Position::new(5, 1)));
    assert!(cell_affected_exec(&AoePattern::Sides, &attacker, &target, &Position::new(4, 3)));
    assert!(!cell_affected_exec(&AoePattern::Sides, &attacker, &target, &Position::new(5, 2)));
}
