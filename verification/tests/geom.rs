use engine::delta::Delta;
use engine::direction::Direction;
use engine::position::Position;
use engine::shapes;
use engine::unit::UnitId;

#[test]
fn delta_test_invert() {
    let d = Delta::new(3, -4);
    let inv = d.invert();
    assert_eq!(inv.dx, -3);
    assert_eq!(inv.dy, 4);
}

#[test]
fn test_norm() {
    assert_eq!(Delta::new(2, 1).norm(), 3);
    assert_eq!(Delta::new(-1, 1).norm(), 1);
    assert_eq!(Delta::new(-2, 1).norm(), 2);
    assert_eq!(Delta::new(-2, -2).norm(), 4);
}

#[test]
fn test_dir_vec() {
    assert_eq!(Direction::Right.dir_vec(), Delta::new(1, 0));
    assert_eq!(Direction::UpLeft.dir_vec(), Delta::new(-1, 1));
    assert_eq!(Direction::DownLeft.dir_vec(), Delta::new(0, -1));
}

#[test]
fn direction_test_invert() {
    assert_eq!(Direction::Right.invert(), Direction::Left);
    assert_eq!(Direction::UpLeft.invert(), Direction::DownRight);
}

#[test]
fn test_offset() {
    let pos = Position::new(5, 5);
    let delta = Delta::new(2, -3);
    let new_pos = pos.offset(delta);
    assert_eq!(new_pos.x, 7);
    assert_eq!(new_pos.y, 2);
}

#[test]
fn neighbors_are_the_six_directions() {
    let ns = shapes::neighbors();
    assert_eq!(ns.len(), 6);
    for d in [
        Direction::Right,
        Direction::Left,
        Direction::UpRight,
        Direction::UpLeft,
        Direction::DownRight,
        Direction::DownLeft,
    ] {
        assert!(ns.contains(&d.dir_vec()));
    }
}

#[test]
fn disk_holds_exactly_the_near_offsets() {
    let d = shapes::disk(1);
    assert_eq!(d.len(), 7);
    assert!(d.contains(&Delta::new(0, 0)));
    for n in shapes::neighbors() {
        assert!(d.contains(&n));
    }
    assert!(!d.contains(&Delta::new(2, 0)));
    assert!(!d.contains(&Delta::new(1, 1)));
}

#[test]
fn ring_holds_exactly_the_rim() {
    let r = shapes::ring(1);
    assert_eq!(r.len(), 6);
    assert!(!r.contains(&Delta::new(0, 0)));
    for n in shapes::neighbors() {
        assert!(r.contains(&n));
    }
    let r0 = shapes::ring(0);
    assert_eq!(r0, vec![Delta::new(0, 0)]);
}

#[test]
fn cone_yields_no_offsets() {
    assert!(shapes::cone(3).is_empty());
}

#[test]
fn unit_id_next_is_monotone_until_exhausted() {
    assert_eq!(UnitId(4).next(), Some(UnitId(5)));
    assert_eq!(UnitId(u32::MAX).next(), None);
}
