use vstd::prelude::*;

use crate::position::Position;

verus! {

/// Identity of a participant.
#[derive(Debug, Clone, Copy, PartialEq, Eq, Hash, Structural)]
pub struct PlayerId(pub u32);

/// A participant: identity plus display name. Created at game setup and
/// immutable thereafter.
#[derive(Debug, Clone)]
pub struct Player {
    pub id: PlayerId,
    pub name: String,
}

/// The mathematical content of a player.
#[verifier::ext_equal]
pub ghost struct PlayerView {
    pub id: PlayerId,
    pub name: Seq<char>,
}

impl View for Player {
    type V = PlayerView;

    open spec fn view(&self) -> PlayerView {
        PlayerView { id: self.id, name: self.name@ }
    }
}

impl Player {
    /// A copy with the same identity and name, for snapshots.
    pub fn duplicate(&self) -> (p: Player)
        ensures
            p@ == self@,
    {
        Player { id: self.id, name: self.name.clone() }
    }
}

/// Reference into the external unit-class content table.
#[derive(Debug, Clone, Copy, PartialEq, Eq, Hash, Structural)]
pub struct UnitClassId(pub u32);

impl UnitClassId {
    pub fn new(val: u32) -> (r: UnitClassId)
        ensures
            r == UnitClassId(val),
    {
        UnitClassId(val)
    }
}

/// Stable unit identity: a small integer handle, monotonically allocated,
/// still meaningful after the unit is gone.
#[derive(Debug, Clone, Copy, PartialEq, Eq, PartialOrd, Ord, Hash, Structural)]
pub struct UnitId(pub u32);

impl UnitId {
    /// The next identity, if the counter has room left.
    pub fn next(self) -> (r: Option<UnitId>)
        ensures
            self.0 < u32::MAX ==> r == Some(UnitId((self.0 + 1) as u32)),
            self.0 == u32::MAX ==> r is None,
    {
        if self.0 < u32::MAX {
            Some(UnitId(self.0 + 1))
        } else {
            None
        }
    }
}

/// One kind of act a unit can spend budget on.
#[derive(Debug, Clone, Copy, PartialEq, Eq, Structural)]
pub enum ActionKind {
    Move,
    Attack,
    Ability,
}

/// One entry of a unit's remaining action budget: a single allowed kind,
/// a choice of kinds, a wildcard, or a nested group of further entries.
#[derive(Debug)]
pub enum ActionPoint {
    Move,
    Attack,
    Ability,
    MoveOrAttack,
    Wildcard,
    Enclosure(Vec<ActionPoint>),
}

/// Whether one budget entry can be spent on the given kind of act.
pub open spec fn allows(p: ActionPoint, k: ActionKind) -> bool
    decreases p,
{
    match p {
        ActionPoint::Move => k is Move,
        ActionPoint::Attack => k is Attack,
        ActionPoint::Ability => k is Ability,
        ActionPoint::MoveOrAttack => k is Move || k is Attack,
        ActionPoint::Wildcard => true,
        ActionPoint::Enclosure(ps) => exists|i: int|
            0 <= i < ps@.len() && allows(#[trigger] ps@[i], k),
    }
}

/// The set of kinds one budget entry can be spent on: what a budget entry
/// means, independent of how it is nested.
#[verifier::ext_equal]
pub ghost struct AllowSet {
    pub mv: bool,
    pub atk: bool,
    pub abl: bool,
}

/// The meaning of a budget entry.
pub open spec fn allow_set(p: ActionPoint) -> AllowSet {
    AllowSet {
        mv: allows(p, ActionKind::Move),
        atk: allows(p, ActionKind::Attack),
        abl: allows(p, ActionKind::Ability),
    }
}

/// Whether an allowance covers the given kind.
pub open spec fn allow_has(a: AllowSet, k: ActionKind) -> bool {
    match k {
        ActionKind::Move => a.mv,
        ActionKind::Attack => a.atk,
        ActionKind::Ability => a.abl,
    }
}

impl ActionPoint {
    /// Whether this budget entry can be spent on the given kind of act.
    #[verifier::loop_isolation(false)]
    pub fn can_spend(&self, k: ActionKind) -> (r: bool)
        ensures
            r == allows(*self, k),
        decreases *self,
    {
        match self {
            ActionPoint::Move => k == ActionKind::Move,
            ActionPoint::Attack => k == ActionKind::Attack,
            ActionPoint::Ability => k == ActionKind::Ability,
            ActionPoint::MoveOrAttack => k == ActionKind::Move || k == ActionKind::Attack,
            ActionPoint::Wildcard => true,
            ActionPoint::Enclosure(ps) => {
                let mut i: usize = 0;
                let mut found: bool = false;
                while i < ps.len()
                    invariant
                        i <= ps.len(),
                        found == exists|j: int| 0 <= j < i && allows(#[trigger] ps@[j], k),
                    decreases ps.len() - i,
                {
                    proof {
                        assert(decreases_to!(*self => (*self)->Enclosure_0));
                        assert(decreases_to!((*self)->Enclosure_0@ => (*self)->Enclosure_0@[i as int]));
                    }
                    if ps[i].can_spend(k) {
                        found = true;
                    }
                    i = i + 1;
                }
                found
            },
        }
    }
}

/// Base health a freshly built unit starts with. Class-specific stat tables
/// are content data outside this engine.
pub const BASE_HEALTH: u32 = 10;

/// The action budget a unit holds at the start of its turn.
pub open spec fn default_budget() -> Seq<AllowSet> {
    seq![allow_set(ActionPoint::Move), allow_set(ActionPoint::Attack)]
}

/// A fresh action budget: one move point and one attack point.
pub fn fresh_budget() -> (r: Vec<ActionPoint>)
    ensures
        r@.map_values(|p: ActionPoint| allow_set(p)) =~= default_budget(),
{
    let r: Vec<ActionPoint> = vec![ActionPoint::Move, ActionPoint::Attack];
    r
}

/// Whether some budget entry covers the given kind.
pub open spec fn has_action(budget: Seq<AllowSet>, k: ActionKind) -> bool {
    exists|i: int| 0 <= i < budget.len() && allow_has(#[trigger] budget[i], k)
}

/// Index of the first budget entry covering the kind, or the length when
/// none does.
pub open spec fn first_allowing(budget: Seq<AllowSet>, k: ActionKind) -> int
    decreases budget.len(),
{
    if budget.len() == 0 {
        0
    } else if allow_has(budget[0], k) {
        0
    } else {
        1 + first_allowing(budget.drop_first(), k)
    }
}

/// `first_allowing` is the least covering index and exists exactly when the
/// budget covers the kind.
pub proof fn lemma_first_allowing(budget: Seq<AllowSet>, k: ActionKind)
    ensures
        0 <= first_allowing(budget, k) <= budget.len(),
        forall|l: int| 0 <= l < first_allowing(budget, k) ==> !allow_has(#[trigger] budget[l], k),
        first_allowing(budget, k) < budget.len() ==> allow_has(budget[first_allowing(budget, k)], k),
        (first_allowing(budget, k) < budget.len()) <==> has_action(budget, k),
    decreases budget.len(),
{
    if budget.len() == 0 {
    } else if allow_has(budget[0], k) {
    } else {
        let tail = budget.drop_first();
        lemma_first_allowing(tail, k);
        assert forall|l: int| 0 <= l < first_allowing(budget, k) implies !allow_has(
            #[trigger] budget[l],
            k,
        ) by {
            if l > 0 {
                assert(tail[l - 1] == budget[l]);
            }
        }
        if has_action(budget, k) {
            let i = choose|i: int| 0 <= i < budget.len() && allow_has(#[trigger] budget[i], k);
            assert(tail[i - 1] == budget[i]);
            assert(has_action(tail, k));
        }
        if has_action(tail, k) {
            let i = choose|i: int| 0 <= i < tail.len() && allow_has(#[trigger] tail[i], k);
            assert(budget[i + 1] == tail[i]);
            assert(has_action(budget, k));
        }
    }
}

/// The budget left after spending the first entry covering the kind;
/// unchanged when none does.
pub open spec fn spend(budget: Seq<AllowSet>, k: ActionKind) -> Seq<AllowSet> {
    if has_action(budget, k) {
        budget.remove(first_allowing(budget, k))
    } else {
        budget
    }
}

/// A combat unit's mutable state.
#[derive(Debug)]
pub struct Unit {
    pub id: UnitId,
    pub owner: PlayerId,
    pub class: UnitClassId,
    pub health: u32,
    pub actions: Vec<ActionPoint>,
    pub position: Position,
}

/// The mathematical content of a unit; the budget is abstracted to the
/// allowance of each remaining entry.
#[verifier::ext_equal]
pub ghost struct UnitView {
    pub id: UnitId,
    pub owner: PlayerId,
    pub class: UnitClassId,
    pub health: u32,
    pub actions: Seq<AllowSet>,
    pub position: Position,
}

impl View for Unit {
    type V = UnitView;

    open spec fn view(&self) -> UnitView {
        UnitView {
            id: self.id,
            owner: self.owner,
            class: self.class,
            health: self.health,
            actions: self.actions@.map_values(|p: ActionPoint| allow_set(p)),
            position: self.position,
        }
    }
}

/// A unit's effective turn-order priority. Stat tables and effect modifiers
/// are content data outside this engine, so every unit carries the same
/// base priority.
pub open spec fn spec_speed(u: UnitView) -> u8 {
    1u8
}

impl Unit {
    /// Build a new unit of the given class for the given owner, standing at
    /// `pos`, with base health and a full action budget.
    pub fn new(class: UnitClassId, owner: PlayerId, pos: Position, id: UnitId) -> (u: Unit)
        ensures
            u@ == (UnitView {
                id,
                owner,
                class,
                health: BASE_HEALTH,
                actions: default_budget(),
                position: pos,
            }),
    {
        let u = Unit {
            id,
            owner,
            class,
            health: BASE_HEALTH,
            actions: fresh_budget(),
            position: pos,
        };
        assert(u@ =~= UnitView {
            id,
            owner,
            class,
            health: BASE_HEALTH,
            actions: default_budget(),
            position: pos,
        });
        u
    }

    pub fn get_pos(&self) -> (r: Position)
        ensures
            r == self@.position,
    {
        self.position
    }

    pub fn get_id(&self) -> (r: UnitId)
        ensures
            r == self@.id,
    {
        self.id
    }

    pub fn change_pos(&mut self, new_pos: Position)
        ensures
            final(self)@ == (UnitView { position: new_pos, ..old(self)@ }),
    {
        self.position = new_pos;
    }

    /// The unit's current effective speed.
    pub fn speed(&self) -> (r: u8)
        ensures
            r == spec_speed(self@),
    {
        1
    }

    /// Whether the remaining budget covers the given kind, without spending.
    pub fn has_budget(&self, k: ActionKind) -> (r: bool)
        ensures
            r == has_action(self@.actions, k),
    {
        let ghost acts = self@.actions;
        let mut i: usize = 0;
        while i < self.actions.len()
            invariant
                i <= acts.len(),
                acts == self@.actions,
                forall|l: int| 0 <= l < i ==> !allow_has(#[trigger] acts[l], k),
            decreases acts.len() - i,
        {
            if self.actions[i].can_spend(k) {
                proof {
                    assert(acts[i as int] == allow_set(self.actions@[i as int]));
                    assert(allow_has(acts[i as int], k));
                }
                return true;
            }
            i = i + 1;
        }
        false
    }

    /// Spend one budget entry covering the kind; reports whether one was
    /// available. The budget is unchanged when none was.
    pub fn spend_action(&mut self, k: ActionKind) -> (r: bool)
        ensures
            r == has_action(old(self)@.actions, k),
            final(self)@ == (UnitView { actions: spend(old(self)@.actions, k), ..old(self)@ }),
    {
        let ghost acts = self@.actions;
        let mut i: usize = 0;
        while i < self.actions.len()
            invariant
                *self == *old(self),
                i <= acts.len(),
                acts == self@.actions,
                forall|l: int| 0 <= l < i ==> !allow_has(#[trigger] acts[l], k),
            decreases acts.len() - i,
        {
            if self.actions[i].can_spend(k) {
                proof {
                    assert(acts[i as int] == allow_set(self.actions@[i as int]));
                    assert(allow_has(acts[i as int], k));
                    lemma_first_allowing(acts, k);
                    assert(first_allowing(acts, k) == i);
                }
                let ghost before = self.actions@;
                self.actions.remove(i);
                proof {
                    assert(self.actions@.map_values(|p: ActionPoint| allow_set(p)) =~= acts.remove(
                        i as int,
                    ));
                    assert(final(self)@ =~= (UnitView {
                        actions: spend(old(self)@.actions, k),
                        ..old(self)@
                    }));
                }
                return true;
            }
            i = i + 1;
        }
        proof {
            lemma_first_allowing(acts, k);
            assert(!has_action(acts, k));
            assert(final(self)@ =~= (UnitView { actions: spend(old(self)@.actions, k), ..old(self)@ }));
        }
        false
    }

    /// Hand the unit a fresh budget at the start of its turn.
    pub fn refresh_budget(&mut self)
        ensures
            final(self)@ == (UnitView { actions: default_budget(), ..old(self)@ }),
    {
        self.actions = fresh_budget();
        proof {
            assert(final(self)@ =~= (UnitView { actions: default_budget(), ..old(self)@ }));
        }
    }

    /// A copy with the same mathematical content; budget entries are copied
    /// in canonical form.
    pub fn duplicate(&self) -> (u: Unit)
        ensures
            u@ == self@,
    {
        let mut actions: Vec<ActionPoint> = Vec::new();
        let mut i: usize = 0;
        while i < self.actions.len()
            invariant
                i <= self.actions@.len(),
                actions@.map_values(|p: ActionPoint| allow_set(p)) =~= self@.actions.subrange(
                    0,
                    i as int,
                ),
            decreases self.actions@.len() - i,
        {
            let p = &self.actions[i];
            let mv = p.can_spend(ActionKind::Move);
            let atk = p.can_spend(ActionKind::Attack);
            let abl = p.can_spend(ActionKind::Ability);
            actions.push(canonical_point(mv, atk, abl));
            proof {
                assert(self@.actions[i as int] == allow_set(self.actions@[i as int]));
                assert(self@.actions.subrange(0, i + 1) =~= self@.actions.subrange(0, i as int).push(
                    self@.actions[i as int],
                ));
                assert(actions@.map_values(|p: ActionPoint| allow_set(p)) =~= self@.actions.subrange(
                    0,
                    i + 1,
                ));
            }
            i = i + 1;
        }
        let u = Unit {
            id: self.id,
            owner: self.owner,
            class: self.class,
            health: self.health,
            actions,
            position: self.position,
        };
        proof {
            assert(self@.actions.subrange(0, self@.actions.len() as int) =~= self@.actions);
            assert(u@ =~= self@);
        }
        u
    }
}

/// A budget entry with the given allowance, in flat canonical form.
fn canonical_point(mv: bool, atk: bool, abl: bool) -> (r: ActionPoint)
    ensures
        allow_set(r) == (AllowSet { mv, atk, abl }),
{
    if mv && atk && abl {
        ActionPoint::Wildcard
    } else if mv && atk {
        ActionPoint::MoveOrAttack
    } else if mv && abl {
        let ps: Vec<ActionPoint> = vec![ActionPoint::Move, ActionPoint::Ability];
        let r = ActionPoint::Enclosure(ps);
        proof {
            lemma_enclosure_pair(r, ActionPoint::Move, ActionPoint::Ability);
        }
        r
    } else if atk && abl {
        let ps: Vec<ActionPoint> = vec![ActionPoint::Attack, ActionPoint::Ability];
        let r = ActionPoint::Enclosure(ps);
        proof {
            lemma_enclosure_pair(r, ActionPoint::Attack, ActionPoint::Ability);
        }
        r
    } else if mv {
        ActionPoint::Move
    } else if atk {
        ActionPoint::Attack
    } else if abl {
        ActionPoint::Ability
    } else {
        let ps: Vec<ActionPoint> = Vec::new();
        let r = ActionPoint::Enclosure(ps);
        proof {
            assert forall|k: ActionKind| !allows(r, k) by {
                assert(r->Enclosure_0@.len() == 0);
            }
        }
        r
    }
}

/// An enclosure of two entries allows a kind exactly when one of the two
/// does.
proof fn lemma_enclosure_pair(e: ActionPoint, a: ActionPoint, b: ActionPoint)
    requires
        e is Enclosure,
        e->Enclosure_0@ =~= seq![a, b],
    ensures
        forall|k: ActionKind| #[trigger] allows(e, k) <==> (allows(a, k) || allows(b, k)),
{
    assert forall|k: ActionKind| allows(e, k) <==> (allows(a, k) || allows(b, k)) by {
        let ps = e->Enclosure_0@;
        assert(ps[0] == a);
        assert(ps[1] == b);
        if allows(a, k) {
            assert(allows(ps[0], k));
        }
        if allows(b, k) {
            assert(allows(ps[1], k));
        }
        if allows(e, k) {
            let i = choose|i: int| 0 <= i < ps.len() && allows(#[trigger] ps[i], k);
            assert(i == 0 || i == 1);
        }
    }
}

} // verus!
