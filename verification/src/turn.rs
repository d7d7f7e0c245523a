use std::collections::VecDeque;

use vstd::prelude::*;
use vstd::relations::{sorted_by, total_ordering};
use vstd::seq_lib::lemma_sorted_unique;

use crate::unit::{spec_speed, Unit, UnitId, UnitView};

verus! {

/// The turn-order key of a unit: effective speed and identity.
pub open spec fn unit_key(u: UnitView) -> (u8, u32) {
    (spec_speed(u), u.id.0)
}

/// Turn-order comparison on keys: faster units come first; equal speeds are
/// broken by ascending unit id, which makes the order total and replay
/// deterministic.
pub open spec fn key_le(a: (u8, u32), b: (u8, u32)) -> bool {
    a.0 > b.0 || (a.0 == b.0 && a.1 <= b.1)
}

/// The key comparison as a relation value.
pub open spec fn key_le_fn() -> spec_fn((u8, u32), (u8, u32)) -> bool {
    |a: (u8, u32), b: (u8, u32)| key_le(a, b)
}

/// The key order is reflexive, antisymmetric, transitive and total.
pub proof fn lemma_key_le_total()
    ensures
        total_ordering(key_le_fn()),
{
}

/// The views of a roster's units.
pub open spec fn views_of(units: Seq<Unit>) -> Seq<UnitView> {
    units.map_values(|u: Unit| u@)
}

/// The ids of a roster's units, in roster order.
pub open spec fn unit_ids(units: Seq<UnitView>) -> Seq<UnitId> {
    units.map_values(|u: UnitView| u.id)
}

/// Whether no two units of a roster share an id.
pub open spec fn ids_distinct(units: Seq<UnitView>) -> bool {
    forall|i: int, j: int| 0 <= i < j < units.len() ==> units[i].id != units[j].id
}

/// Index of the first unit with the given id, or -1 when the id is unknown.
pub open spec fn find_unit(units: Seq<UnitView>, id: UnitId) -> int
    decreases units.len(),
{
    if units.len() == 0 {
        -1
    } else if units[0].id == id {
        0
    } else if find_unit(units.drop_first(), id) < 0 {
        -1
    } else {
        1 + find_unit(units.drop_first(), id)
    }
}

/// `find_unit` is the first index carrying the id, and it exists exactly
/// when some unit carries the id.
pub proof fn lemma_find_unit(units: Seq<UnitView>, id: UnitId)
    ensures
        -1 <= find_unit(units, id) < units.len(),
        find_unit(units, id) >= 0 ==> units[find_unit(units, id)].id == id,
        forall|l: int| 0 <= l < find_unit(units, id) ==> units[l].id != id,
        (find_unit(units, id) >= 0) <==> unit_ids(units).contains(id),
    decreases units.len(),
{
    if units.len() == 0 {
    } else if units[0].id == id {
        assert(unit_ids(units)[0] == id);
    } else {
        let tail = units.drop_first();
        lemma_find_unit(tail, id);
        assert forall|l: int| 0 <= l < find_unit(units, id) implies units[l].id != id by {
            if l > 0 {
                assert(tail[l - 1] == units[l]);
            }
        }
        if unit_ids(units).contains(id) {
            let k = choose|k: int| 0 <= k < units.len() && #[trigger] unit_ids(units)[k] == id;
            assert(unit_ids(tail)[k - 1] == id);
            assert(unit_ids(tail).contains(id));
        }
        if unit_ids(tail).contains(id) {
            let k = choose|k: int| 0 <= k < tail.len() && #[trigger] unit_ids(tail)[k] == id;
            assert(unit_ids(units)[k + 1] == id);
        }
    }
}

/// The effective speed of the unit carrying the given id, or the base
/// priority when the id is unknown.
pub open spec fn speed_lookup(units: Seq<UnitView>, id: UnitId) -> u8 {
    if find_unit(units, id) >= 0 {
        spec_speed(units[find_unit(units, id)])
    } else {
        1u8
    }
}

/// The turn-order key of an id within a roster.
pub open spec fn key_for(units: Seq<UnitView>, id: UnitId) -> (u8, u32) {
    (speed_lookup(units, id), id.0)
}

/// The queue built from a roster: unit ids ordered by descending effective
/// speed, ties broken by ascending id.
pub open spec fn queue_of(units: Seq<UnitView>) -> Seq<UnitId> {
    units.map_values(|u: UnitView| unit_key(u)).sort_by(key_le_fn()).map_values(
        |p: (u8, u32)| UnitId(p.1),
    )
}

/// A queue re-sorted by the current speeds of the roster's units.
pub open spec fn requeue(q: Seq<UnitId>, units: Seq<UnitView>) -> Seq<UnitId> {
    q.map_values(|id: UnitId| key_for(units, id)).sort_by(key_le_fn()).map_values(
        |p: (u8, u32)| UnitId(p.1),
    )
}

/// A queue with one id struck out; the relative order of the remaining
/// entries is untouched.
pub open spec fn purge(q: Seq<UnitId>, id: UnitId) -> Seq<UnitId>
    decreases q.len(),
{
    if q.len() == 0 {
        q
    } else if q[0] == id {
        purge(q.drop_first(), id)
    } else {
        seq![q[0]] + purge(q.drop_first(), id)
    }
}

/// Filtering a one-element sequence keeps or drops that element.
pub proof fn lemma_filter_singleton<A>(x: A, pred: spec_fn(A) -> bool)
    ensures
        pred(x) ==> seq![x].filter(pred) =~= seq![x],
        !pred(x) ==> seq![x].filter(pred) =~= Seq::<A>::empty(),
{
    reveal_with_fuel(Seq::filter, 2);
    assert(seq![x].drop_last() =~= Seq::<A>::empty());
}

/// Striking an id out of a queue keeps exactly the other entries, in their
/// original relative order.
pub proof fn lemma_purge_ensures(q: Seq<UnitId>, id: UnitId)
    ensures
        purge(q, id) == q.filter(|x: UnitId| x != id),
    decreases q.len(),
{
    reveal(Seq::filter);
    if q.len() == 0 {
        assert(q.filter(|x: UnitId| x != id) =~= Seq::<UnitId>::empty());
    } else {
        lemma_purge_ensures(q.drop_first(), id);
        assert(q =~= seq![q[0]] + q.drop_first());
        Seq::<UnitId>::filter_distributes_over_add(seq![q[0]], q.drop_first(), |x: UnitId| x != id);
        lemma_filter_singleton(q[0], |x: UnitId| x != id);
        if q[0] == id {
            assert(purge(q, id) =~= q.filter(|x: UnitId| x != id));
        } else {
            assert(purge(q, id) =~= q.filter(|x: UnitId| x != id));
        }
    }
}

/// Purging keeps the queue duplicate-free and removes exactly the one id.
pub proof fn lemma_purge_props(q: Seq<UnitId>, id: UnitId)
    requires
        q.no_duplicates(),
    ensures
        purge(q, id).no_duplicates(),
        forall|x: UnitId| #[trigger] purge(q, id).contains(x) <==> (q.contains(x) && x != id),
    decreases q.len(),
{
    if q.len() == 0 {
    } else {
        let tail = q.drop_first();
        assert(tail.no_duplicates()) by {
            assert forall|i: int, j: int| 0 <= i < j < tail.len() implies tail[i] != tail[j] by {
                assert(tail[i] == q[i + 1] && tail[j] == q[j + 1]);
            }
        }
        lemma_purge_props(tail, id);
        assert forall|x: UnitId| q.contains(x) <==> (x == q[0] || tail.contains(x)) by {
            if q.contains(x) {
                let k = choose|k: int| 0 <= k < q.len() && q[k] == x;
                if k > 0 {
                    assert(tail[k - 1] == x);
                }
            }
            if tail.contains(x) {
                let k = choose|k: int| 0 <= k < tail.len() && tail[k] == x;
                assert(q[k + 1] == x);
            }
        }
        if q[0] == id {
        } else {
            let p = seq![q[0]] + purge(tail, id);
            assert forall|x: UnitId| p.contains(x) <==> (x == q[0] || purge(tail, id).contains(x)) by {
                assert(p[0] == q[0]);
                if p.contains(x) {
                    let k = choose|k: int| 0 <= k < p.len() && p[k] == x;
                    if k > 0 {
                        assert(purge(tail, id)[k - 1] == x);
                    }
                }
                if purge(tail, id).contains(x) {
                    let k = choose|k: int| 0 <= k < purge(tail, id).len() && purge(tail, id)[k] == x;
                    assert(p[k + 1] == x);
                }
            }
            assert(!tail.contains(q[0])) by {
                if tail.contains(q[0]) {
                    let k = choose|k: int| 0 <= k < tail.len() && tail[k] == q[0];
                    assert(q[k + 1] == q[0]);
                }
            }
            assert(p.no_duplicates()) by {
                assert forall|i: int, j: int| 0 <= i < j < p.len() implies p[i] != p[j] by {
                    if i == 0 {
                        assert(p[j] == purge(tail, id)[j - 1]);
                        assert(purge(tail, id).contains(p[j]));
                    } else {
                        assert(p[i] == purge(tail, id)[i - 1] && p[j] == purge(tail, id)[j - 1]);
                    }
                }
            }
        }
    }
}

/// Inserting an element anywhere in a sequence adds exactly that element to
/// its multiset.
pub proof fn lemma_insert_multiset<A>(s: Seq<A>, j: int, x: A)
    requires
        0 <= j <= s.len(),
    ensures
        s.insert(j, x).to_multiset() =~= s.to_multiset().insert(x),
{
    broadcast use vstd::seq_lib::group_to_multiset_ensures;
    broadcast use vstd::multiset::group_multiset_axioms;

    let t = s.insert(j, x);
    assert(t.remove(j) =~= s);
    assert(t[j] == x);
    assert(t.remove(j).to_multiset() =~= t.to_multiset().remove(t[j]));
    assert(t.contains(x));
    assert(t.to_multiset().count(x) > 0);
    assert forall|y: A| t.to_multiset().count(y) == s.to_multiset().insert(x).count(y) by {
        assert(s.to_multiset().count(y) == t.to_multiset().remove(x).count(y));
    }
}

/// Sort turn-order keys: fastest first, ties by ascending id.
fn sort_keys(input: &Vec<(u8, u32)>) -> (out: Vec<(u8, u32)>)
    ensures
        out@.to_multiset() == input@.to_multiset(),
        sorted_by(out@, key_le_fn()),
{
    broadcast use vstd::seq_lib::group_to_multiset_ensures;

    let mut out: Vec<(u8, u32)> = Vec::new();
    let mut i: usize = 0;
    proof {
        assert(input@.subrange(0, 0) =~= Seq::<(u8, u32)>::empty());
        assert(out@.to_multiset() =~= input@.subrange(0, 0).to_multiset());
    }
    while i < input.len()
        invariant
            i <= input.len(),
            out@.len() == i,
            out@.to_multiset() == input@.subrange(0, i as int).to_multiset(),
            sorted_by(out@, key_le_fn()),
        decreases input.len() - i,
    {
        let x = input[i];
        let mut j: usize = 0;
        while j < out.len() && (out[j].0 > x.0 || (out[j].0 == x.0 && out[j].1 <= x.1))
            invariant
                j <= out.len(),
                forall|k: int| 0 <= k < j ==> key_le(#[trigger] out@[k], x),
            decreases out.len() - j,
        {
            j = j + 1;
        }
        let ghost prev = out@;
        let ghost kle = key_le_fn();
        out.insert(j, x);
        proof {
            assert forall|a: int, b: int| 0 <= a < b < out@.len() implies kle(
                #[trigger] out@[a],
                #[trigger] out@[b],
            ) by {
                if j < prev.len() {
                    assert(!key_le(prev[j as int], x));
                }
                if a < j && b == j {
                    assert(key_le(prev[a], x));
                } else if a == j && b > j {
                    if b - 1 > j {
                        assert(kle(prev[j as int], prev[b - 1]));
                    }
                    assert(key_le(x, prev[b - 1]));
                } else if a < j && b > j {
                    assert(kle(prev[a], prev[b - 1]));
                } else if b < j || a > j {
                    assert(kle(prev[if a < j { a } else { a - 1 }], prev[if b < j {
                        b
                    } else {
                        b - 1
                    }]));
                }
            }
            assert(sorted_by(out@, key_le_fn()));
            lemma_insert_multiset(prev, j as int, x);
            input@.subrange(0, i as int).to_multiset_ensures();
            assert(input@.subrange(0, i + 1) =~= input@.subrange(0, i as int).push(x));
            assert(input@.subrange(0, i as int).push(x).to_multiset() =~= input@.subrange(
                0,
                i as int,
            ).to_multiset().insert(x));
        }
        i = i + 1;
    }
    proof {
        assert(input@.subrange(0, input@.len() as int) =~= input@);
    }
    out
}

/// Turn sorted keys back into a queue of unit ids.
fn ids_of_keys(sorted: &Vec<(u8, u32)>) -> (q: VecDeque<UnitId>)
    ensures
        q@ == sorted@.map_values(|p: (u8, u32)| UnitId(p.1)),
{
    let mut q: VecDeque<UnitId> = VecDeque::new();
    let mut i: usize = 0;
    while i < sorted.len()
        invariant
            i <= sorted@.len(),
            q@ =~= sorted@.subrange(0, i as int).map_values(|p: (u8, u32)| UnitId(p.1)),
        decreases sorted@.len() - i,
    {
        q.push_back(UnitId(sorted[i].1));
        proof {
            assert(sorted@.subrange(0, i + 1) =~= sorted@.subrange(0, i as int).push(
                sorted@[i as int],
            ));
            assert(sorted@.subrange(0, i + 1).map_values(|p: (u8, u32)| UnitId(p.1)) =~= sorted@
                .subrange(0, i as int).map_values(|p: (u8, u32)| UnitId(p.1)).push(
                UnitId(sorted@[i as int].1),
            ));
        }
        i = i + 1;
    }
    proof {
        assert(sorted@.subrange(0, sorted@.len() as int) =~= sorted@);
    }
    q
}

/// The effective speed of the unit carrying the given id, scanning the
/// roster front to back.
fn speed_of(units: &[Unit], id: UnitId) -> (r: u8)
    ensures
        r == speed_lookup(views_of(units@), id),
{
    let ghost vs = views_of(units@);
    let mut i: usize = 0;
    while i < units.len()
        invariant
            i <= vs.len(),
            vs.len() == units@.len(),
            vs == views_of(units@),
            forall|l: int| 0 <= l < i ==> vs[l].id != id,
        decreases vs.len() - i,
    {
        if units[i].id.0 == id.0 {
            proof {
                assert(vs[i as int] == units@[i as int]@);
                assert(vs[i as int].id == id);
                assert(unit_ids(vs)[i as int] == id);
                lemma_find_unit(vs, id);
                assert(find_unit(vs, id) == i);
            }
            return units[i].speed();
        }
        i = i + 1;
    }
    proof {
        lemma_find_unit(vs, id);
        if find_unit(vs, id) >= 0 {
            assert(vs[find_unit(vs, id)].id == id);
            assert(false);
        }
    }
    1
}

/// The remaining turn order of the current round, fastest first.
#[derive(Debug)]
pub struct UnitQueue {
    queue: VecDeque<UnitId>,
}

impl View for UnitQueue {
    type V = Seq<UnitId>;

    closed spec fn view(&self) -> Seq<UnitId> {
        self.queue@
    }
}

/// Build the queue holding the ids of the given units in turn order.
fn order_ids(units: &[Unit]) -> (q: VecDeque<UnitId>)
    ensures
        q@ == queue_of(views_of(units@)),
{
    let mut keys: Vec<(u8, u32)> = Vec::new();
    let mut i: usize = 0;
    while i < units.len()
        invariant
            i <= units@.len(),
            keys@ =~= views_of(units@.subrange(0, i as int)).map_values(
                |u: UnitView| unit_key(u),
            ),
        decreases units@.len() - i,
    {
        let u = &units[i];
        keys.push((u.speed(), u.get_id().0));
        proof {
            assert(views_of(units@.subrange(0, i + 1)) =~= views_of(
                units@.subrange(0, i as int),
            ).push(units@[i as int]@));
            assert(views_of(units@.subrange(0, i + 1)).map_values(|u: UnitView| unit_key(u))
                =~= views_of(units@.subrange(0, i as int)).map_values(
                |u: UnitView| unit_key(u),
            ).push(unit_key(units@[i as int]@)));
        }
        i = i + 1;
    }
    proof {
        assert(units@.subrange(0, units@.len() as int) =~= units@);
    }
    let sorted = sort_keys(&keys);
    proof {
        lemma_key_le_total();
        views_of(units@).map_values(|u: UnitView| unit_key(u)).lemma_sort_by_ensures(key_le_fn());
        lemma_sorted_unique(
            sorted@,
            views_of(units@).map_values(|u: UnitView| unit_key(u)).sort_by(key_le_fn()),
            key_le_fn(),
        );
    }
    ids_of_keys(&sorted)
}

impl UnitQueue {
    /// Build the turn order of a round from the given units.
    pub fn new(units: &[Unit]) -> (q: UnitQueue)
        ensures
            q@ == queue_of(views_of(units@)),
    {
        UnitQueue { queue: order_ids(units) }
    }

    /// An empty queue.
    pub fn empty() -> (q: UnitQueue)
        ensures
            q@ == Seq::<UnitId>::empty(),
    {
        UnitQueue { queue: VecDeque::new() }
    }

    /// Pop the next unit from the front.
    pub fn next_unit(&mut self) -> (r: Option<UnitId>)
        ensures
            old(self)@.len() == 0 ==> r is None && final(self)@ == old(self)@,
            old(self)@.len() > 0 ==> r == Some(old(self)@[0]) && final(self)@ == old(
                self,
            )@.drop_first(),
    {
        let r = self.queue.pop_front();
        proof {
            if old(self)@.len() > 0 {
                assert(old(self)@.subrange(1, old(self)@.len() as int) =~= old(self)@.drop_first());
            }
        }
        r
    }

    /// The next unit, without removing it.
    pub fn peek(&self) -> (r: Option<UnitId>)
        ensures
            self@.len() == 0 ==> r is None,
            self@.len() > 0 ==> r == Some(self@[0]),
    {
        if self.queue.len() > 0 {
            Some(self.queue[0])
        } else {
            None
        }
    }

    /// How many units still wait for their turn.
    pub fn len(&self) -> (r: usize)
        ensures
            r == self@.len(),
    {
        self.queue.len()
    }

    /// The remaining turn order, front first.
    pub fn remaining(&self) -> (r: Vec<UnitId>)
        ensures
            r@ == self@,
    {
        let mut r: Vec<UnitId> = Vec::new();
        let mut i: usize = 0;
        while i < self.queue.len()
            invariant
                i <= self@.len(),
                r@ =~= self@.subrange(0, i as int),
            decreases self@.len() - i,
        {
            r.push(self.queue[i]);
            proof {
                assert(self@.subrange(0, i + 1) =~= self@.subrange(0, i as int).push(
                    self@[i as int],
                ));
            }
            i = i + 1;
        }
        proof {
            assert(self@.subrange(0, self@.len() as int) =~= self@);
        }
        r
    }

    /// Push a unit to the back, for mid-round insertions such as delayed
    /// spawns.
    pub fn push_unit(&mut self, unit_id: UnitId)
        ensures
            final(self)@ == old(self)@.push(unit_id),
    {
        self.queue.push_back(unit_id);
    }

    /// Strike a unit out of the remaining order, keeping every other entry
    /// in place; used when a unit dies mid-round.
    pub fn remove_unit(&mut self, unit_id: UnitId)
        ensures
            final(self)@ == purge(old(self)@, unit_id),
    {
        let ghost whole = self.queue@;
        let mut kept: VecDeque<UnitId> = VecDeque::new();
        let mut i: usize = 0;
        proof {
            assert(whole.subrange(0, whole.len() as int) =~= whole);
            assert(kept@ + purge(whole, unit_id) =~= purge(whole, unit_id));
        }
        while i < self.queue.len()
            invariant
                i <= whole.len(),
                self.queue@ == whole,
                purge(whole, unit_id) =~= kept@ + purge(
                    whole.subrange(i as int, whole.len() as int),
                    unit_id,
                ),
            decreases whole.len() - i,
        {
            let id = self.queue[i];
            let ghost rest = whole.subrange(i as int, whole.len() as int);
            proof {
                assert(rest.len() > 0);
                assert(rest[0] == id);
                assert(rest.drop_first() =~= whole.subrange(i + 1, whole.len() as int));
            }
            if id.0 != unit_id.0 {
                kept.push_back(id);
                proof {
                    assert(purge(rest, unit_id) =~= seq![id] + purge(
                        whole.subrange(i + 1, whole.len() as int),
                        unit_id,
                    ));
                }
            } else {
                proof {
                    assert(id == unit_id);
                    assert(purge(rest, unit_id) =~= purge(
                        whole.subrange(i + 1, whole.len() as int),
                        unit_id,
                    ));
                }
            }
            i = i + 1;
        }
        proof {
            assert(whole.subrange(whole.len() as int, whole.len() as int) =~= Seq::<
                UnitId,
            >::empty());
            assert(purge(whole, unit_id) =~= kept@);
        }
        self.queue = kept;
    }

    /// Re-sort the remaining entries by the current speeds of the given
    /// units.
    pub fn recompute_from_units(&mut self, units: &[Unit])
        ensures
            final(self)@ == requeue(old(self)@, views_of(units@)),
    {
        let ghost q0 = self.queue@;
        let ghost vs = views_of(units@);
        let mut keys: Vec<(u8, u32)> = Vec::new();
        let mut i: usize = 0;
        while i < self.queue.len()
            invariant
                self.queue@ == q0,
                vs == views_of(units@),
                i <= q0.len(),
                keys@ =~= q0.subrange(0, i as int).map_values(|id: UnitId| key_for(vs, id)),
            decreases q0.len() - i,
        {
            let id = self.queue[i];
            let sp = speed_of(units, id);
            keys.push((sp, id.0));
            proof {
                assert(q0.subrange(0, i + 1) =~= q0.subrange(0, i as int).push(q0[i as int]));
                assert(q0.subrange(0, i + 1).map_values(|id: UnitId| key_for(vs, id)) =~= q0
                    .subrange(0, i as int).map_values(|id: UnitId| key_for(vs, id)).push(
                    key_for(vs, q0[i as int]),
                ));
            }
            i = i + 1;
        }
        proof {
            assert(q0.subrange(0, q0.len() as int) =~= q0);
        }
        let sorted = sort_keys(&keys);
        proof {
            lemma_key_le_total();
            q0.map_values(|id: UnitId| key_for(vs, id)).lemma_sort_by_ensures(key_le_fn());
            lemma_sorted_unique(
                sorted@,
                q0.map_values(|id: UnitId| key_for(vs, id)).sort_by(key_le_fn()),
                key_le_fn(),
            );
        }
        self.queue = ids_of_keys(&sorted);
    }

    /// A copy with the same remaining order, for snapshots.
    pub fn duplicate(&self) -> (q: UnitQueue)
        ensures
            q@ == self@,
    {
        let q2 = self.queue.clone();
        proof {
            assert forall|i: int| 0 <= i < q2@.len() implies q2@[i] == self.queue@[i] by {
                assert(vstd::pervasive::cloned::<UnitId>(self.queue@[i], q2@[i]));
            }
            assert(q2@ =~= self.queue@);
        }
        UnitQueue { queue: q2 }
    }

    /// Rebuild the queue for a new round from all units in the game.
    pub fn reset_from_game(&mut self, units: &[Unit])
        ensures
            final(self)@ == queue_of(views_of(units@)),
    {
        self.queue = order_ids(units);
    }
}

/// The round-start queue holds exactly the roster's ids, each once, in a
/// total order: descending effective speed, ties broken by ascending id —
/// no tie is left unresolved.
pub proof fn lemma_queue_of_round_order(units: Seq<UnitView>)
    requires
        ids_distinct(units),
    ensures
        forall|id: UnitId| queue_of(units).contains(id) <==> unit_ids(units).contains(id),
        queue_of(units).no_duplicates(),
        queue_of(units).len() == units.len(),
        forall|i: int, j: int|
            0 <= i < j < queue_of(units).len() ==> key_le(
                key_for(units, queue_of(units)[i]),
                key_for(units, queue_of(units)[j]),
            ) && queue_of(units)[i] != queue_of(units)[j],
{
    broadcast use vstd::seq_lib::group_to_multiset_ensures;
    broadcast use vstd::multiset::group_multiset_axioms;

    lemma_key_le_total();
    let ks = units.map_values(|u: UnitView| unit_key(u));
    ks.lemma_sort_by_ensures(key_le_fn());
    let sorted = ks.sort_by(key_le_fn());
    let q = queue_of(units);
    assert(ks.to_multiset() == sorted.to_multiset());
    assert(ks.to_multiset().len() == ks.len());
    assert(sorted.to_multiset().len() == sorted.len());
    assert(q.len() == sorted.len());
    assert(sorted.len() == ks.len());

    // Each sorted entry is the key of exactly the roster unit carrying its id.
    assert forall|i: int| 0 <= i < sorted.len() implies #[trigger] sorted[i] == key_for(
        units,
        UnitId(sorted[i].1),
    ) && unit_ids(units).contains(UnitId(sorted[i].1)) by {
        assert(sorted.contains(sorted[i]));
        assert(sorted.to_multiset().count(sorted[i]) > 0);
        assert(ks.to_multiset().count(sorted[i]) > 0);
        assert(ks.contains(sorted[i]));
        let m = choose|m: int| 0 <= m < ks.len() && #[trigger] ks[m] == sorted[i];
        assert(ks[m] == unit_key(units[m]));
        let id = UnitId(sorted[i].1);
        assert(units[m].id == id);
        assert(unit_ids(units)[m] == id);
        lemma_find_unit(units, id);
        let f = find_unit(units, id);
        assert(units[f].id == id);
        assert(f == m);
        assert(key_for(units, id) == (spec_speed(units[m]), id.0));
        assert(sorted[i] == (sorted[i].0, sorted[i].1));
    }

    // Membership both ways.
    assert forall|id: UnitId| q.contains(id) <==> unit_ids(units).contains(id) by {
        if q.contains(id) {
            let i = choose|i: int| 0 <= i < q.len() && #[trigger] q[i] == id;
            assert(q[i] == UnitId(sorted[i].1));
        }
        if unit_ids(units).contains(id) {
            let m = choose|m: int| 0 <= m < units.len() && #[trigger] unit_ids(units)[m] == id;
            assert(ks[m] == unit_key(units[m]));
            assert(ks.contains(ks[m]));
            assert(ks.to_multiset().count(ks[m]) > 0);
            assert(sorted.to_multiset().count(ks[m]) > 0);
            assert(sorted.contains(ks[m]));
            let i = choose|i: int| 0 <= i < sorted.len() && #[trigger] sorted[i] == ks[m];
            assert(q[i] == id);
        }
    }

    // Strict order and no duplicates: keys at distinct positions differ.
    assert forall|i: int, j: int| 0 <= i < j < sorted.len() implies sorted[i] != sorted[j] by {
        if sorted[i] == sorted[j] {
            let t = sorted.remove(i);
            assert(t[j - 1] == sorted[j]);
            assert(t.contains(sorted[j]));
            assert(t.to_multiset() =~= sorted.to_multiset().remove(sorted[i]));
            assert(t.to_multiset().count(sorted[j]) > 0);
            assert(sorted.to_multiset().count(sorted[i]) >= 2);
            assert(ks.to_multiset().count(sorted[i]) >= 2);
            // Two distinct roster positions would have to carry the same key,
            // which distinct ids rule out.
            let u = ks.remove(ks.index_of(sorted[i]));
            assert(ks.contains(sorted[i]));
            let m = ks.index_of(sorted[i]);
            assert(0 <= m < ks.len() && ks[m] == sorted[i]);
            assert(u.to_multiset() =~= ks.to_multiset().remove(sorted[i]));
            assert(u.to_multiset().count(sorted[i]) >= 1);
            assert(u.contains(sorted[i]));
            let n = choose|n: int| 0 <= n < u.len() && #[trigger] u[n] == sorted[i];
            let n2 = if n < m {
                n
            } else {
                n + 1
            };
            assert(ks[n2] == sorted[i]);
            assert(n2 != m);
            assert(units[m].id == UnitId(sorted[i].1));
            assert(units[n2].id == UnitId(sorted[i].1));
        }
    }
    assert forall|i: int, j: int|
        0 <= i < j < q.len() implies key_le(key_for(units, q[i]), key_for(units, q[j])) && q[i]
        != q[j] by {
        assert(key_le_fn()(sorted[i], sorted[j]));
        assert(q[i] == UnitId(sorted[i].1));
        assert(q[j] == UnitId(sorted[j].1));
        if sorted[i].1 == sorted[j].1 {
            assert(key_le_fn()(sorted[j], sorted[i]));
            assert(sorted[i] == sorted[j]);
        }
    }
    assert(q.no_duplicates()) by {
        assert forall|i: int, j: int| 0 <= i < j < q.len() implies q[i] != q[j] by {
            assert(key_le(key_for(units, q[i]), key_for(units, q[j])) && q[i] != q[j]);
        }
    }
}

} // verus!
