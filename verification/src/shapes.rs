use vstd::prelude::*;

use crate::delta::{abs_int, hex_norm, Delta};
use crate::direction::Direction;

verus! {

/// Whether an offset lies within the filled disk of the given radius.
pub open spec fn in_disk(d: Delta, radius: int) -> bool {
    hex_norm(d.dx as int, d.dy as int) <= radius
}

/// Whether an offset lies exactly on the ring of the given radius.
pub open spec fn on_ring(d: Delta, radius: int) -> bool {
    hex_norm(d.dx as int, d.dy as int) == radius
}

/// The hex norm is the largest of the three cube-coordinate components, so
/// a norm bound is the same as a bound on each component.
pub proof fn lemma_hex_norm_box(dx: int, dy: int, radius: int)
    ensures
        hex_norm(dx, dy) <= radius <==> (abs_int(dx) <= radius && abs_int(dy) <= radius && abs_int(
            dx + dy,
        ) <= radius),
{
}

/// Pushing onto a sequence extends its membership by exactly the new element.
pub proof fn lemma_push_contains<A>(s: Seq<A>, x: A, e: A)
    ensures
        s.push(x).contains(e) <==> (s.contains(e) || e == x),
{
    if s.push(x).contains(e) {
        let j = choose|j: int| 0 <= j < s.push(x).len() && s.push(x)[j] == e;
        if j < s.len() {
            assert(s[j] == e);
        }
    }
    if s.contains(e) {
        let j = choose|j: int| 0 <= j < s.len() && s[j] == e;
        assert(s.push(x)[j] == e);
    }
    if e == x {
        assert(s.push(x)[s.len() as int] == e);
    }
}

/// The unit offsets of all six hex directions.
pub fn neighbors() -> (r: Vec<Delta>)
    ensures
        r@ =~= seq![
            Direction::Right.spec_vec(),
            Direction::Left.spec_vec(),
            Direction::UpRight.spec_vec(),
            Direction::UpLeft.spec_vec(),
            Direction::DownRight.spec_vec(),
            Direction::DownLeft.spec_vec(),
        ],
{
    vec![
        Direction::Right.dir_vec(),
        Direction::Left.dir_vec(),
        Direction::UpRight.dir_vec(),
        Direction::UpLeft.dir_vec(),
        Direction::DownRight.dir_vec(),
        Direction::DownLeft.dir_vec(),
    ]
}

/// All hex offsets within the given radius (a filled disk, centre included).
pub fn disk(radius: i16) -> (r: Vec<Delta>)
    requires
        0 <= radius,
    ensures
        forall|d: Delta| #[trigger] r@.contains(d) <==> in_disk(d, radius as int),
        r@.no_duplicates(),
{
    let rad: i32 = radius as i32;
    let mut results: Vec<Delta> = Vec::new();
    let mut q: i32 = -rad;
    while q <= rad
        invariant
            0 <= rad <= i16::MAX,
            -rad <= q <= rad + 1,
            forall|d: Delta| #[trigger] results@.contains(d) <==> (in_disk(d, rad as int)
                && d.dx < q),
            results@.no_duplicates(),
        decreases rad - q + 1,
    {
        // In cube coordinates a disk is |x|, |y|, |z| <= radius; with
        // z = -x - y the second coordinate is confined to this interval.
        let r1: i32 = if -rad >= -q - rad {
            -rad
        } else {
            -q - rad
        };
        let r2: i32 = if rad <= -q + rad {
            rad
        } else {
            -q + rad
        };
        let mut rr: i32 = r1;
        while rr <= r2
            invariant
                0 <= rad <= i16::MAX,
                -rad <= q <= rad,
                r1 == if -rad >= -q - rad { -rad as int } else { -q - rad },
                r2 == if rad <= -q + rad { rad as int } else { -q + rad },
                r1 <= rr <= r2 + 1,
                forall|d: Delta| #[trigger] results@.contains(d) <==> (in_disk(d, rad as int) && (
                d.dx < q || (d.dx == q && d.dy < rr))),
                results@.no_duplicates(),
            decreases r2 - rr + 1,
        {
            let d = Delta::new(q as i16, rr as i16);
            let ghost prev = results@;
            proof {
                lemma_hex_norm_box(q as int, rr as int, rad as int);
                assert(in_disk(d, rad as int));
                assert(!prev.contains(d));
            }
            results.push(d);
            proof {
                assert forall|e: Delta| #[trigger] results@.contains(e) <==> (in_disk(
                    e,
                    rad as int,
                ) && (e.dx < q || (e.dx == q && e.dy < rr + 1))) by {
                    lemma_push_contains(prev, d, e);
                }
                assert(results@.no_duplicates()) by {
                    assert(forall|k: int| 0 <= k < prev.len() ==> prev[k] != d);
                    assert(forall|k: int| 0 <= k < prev.len() ==> results@[k] == prev[k]);
                    assert(results@[prev.len() as int] == d);
                }
            }
            rr = rr + 1;
        }
        proof {
            assert forall|d: Delta| #[trigger] results@.contains(d) <==> (in_disk(d, rad as int)
                && d.dx < q + 1) by {
                lemma_hex_norm_box(d.dx as int, d.dy as int, rad as int);
            }
        }
        q = q + 1;
    }
    results
}

/// All hex offsets at exactly the given radius. Radius zero yields the
/// centre alone.
pub fn ring(radius: i16) -> (r: Vec<Delta>)
    requires
        0 <= radius,
    ensures
        forall|d: Delta| #[trigger] r@.contains(d) <==> on_ring(d, radius as int),
        r@.no_duplicates(),
{
    let full = disk(radius);
    let mut results: Vec<Delta> = Vec::new();
    let mut i: usize = 0;
    while i < full.len()
        invariant
            0 <= radius,
            i <= full.len(),
            forall|d: Delta| #[trigger] full@.contains(d) <==> in_disk(d, radius as int),
            full@.no_duplicates(),
            forall|d: Delta| #[trigger] results@.contains(d) <==> (on_ring(d, radius as int)
                && full@.subrange(0, i as int).contains(d)),
            results@.no_duplicates(),
        decreases full.len() - i,
    {
        let d = full[i];
        proof {
            assert(full@.contains(d));
            lemma_hex_norm_box(d.dx as int, d.dy as int, radius as int);
        }
        let n = d.norm();
        let ghost prev = results@;
        if n == radius {
            proof {
                if prev.contains(d) {
                    assert(full@.subrange(0, i as int).contains(d));
                    let j = choose|j: int|
                        0 <= j < i && #[trigger] full@.subrange(0, i as int)[j] == d;
                    assert(full@[j] == d);
                    assert(full@[i as int] == d);
                    assert(false);
                }
            }
            results.push(d);
            proof {
                assert(forall|k: int| 0 <= k < prev.len() ==> prev[k] != d);
                assert(forall|k: int| 0 <= k < prev.len() ==> results@[k] == prev[k]);
                assert(results@[prev.len() as int] == d);
                assert(results@.no_duplicates());
            }
        }
        proof {
            assert(full@.subrange(0, i + 1 as int) =~= full@.subrange(0, i as int).push(
                full@[i as int],
            ));
            assert forall|e: Delta| #[trigger] results@.contains(e) <==> (on_ring(e, radius as int)
                && full@.subrange(0, i + 1 as int).contains(e)) by {
                lemma_push_contains(full@.subrange(0, i as int), full@[i as int], e);
                if n == radius {
                    lemma_push_contains(prev, d, e);
                }
            }
        }
        i = i + 1;
    }
    proof {
        assert(full@.subrange(0, full@.len() as int) =~= full@);
        assert forall|d: Delta| #[trigger] results@.contains(d) <==> on_ring(d, radius as int) by {
            if on_ring(d, radius as int) {
                lemma_hex_norm_box(d.dx as int, d.dy as int, radius as int);
                assert(in_disk(d, radius as int));
                assert(full@.contains(d));
            }
        }
    }
    results
}

/// The cell set of a cone sector is content-defined and not fixed by this
/// engine; no offsets are produced here.
pub fn cone(length: i16) -> (r: Vec<Delta>)
    ensures
        r@.len() == 0,
{
    Vec::new()
}

} // verus!
