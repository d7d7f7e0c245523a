use vstd::prelude::*;

use crate::combat::{AttackDefinition, AttackId};
use crate::grid::{Grid, GridView};
use crate::path::{Path, PathView};
use crate::position::Position;
use crate::turn::{purge, queue_of, unit_ids, UnitQueue};
use crate::unit::{
    default_budget, spend, ActionKind, Player, PlayerId, PlayerView, Unit, UnitClassId, UnitId,
    UnitView, BASE_HEALTH,
};

verus! {

/// The phase within a round: the spawn window at its start, or one unit's
/// turn.
#[derive(Debug, Clone, Copy, PartialEq, Eq, Structural)]
pub enum RoundPhase {
    SpawnPhase,
    UnitTurn { unit: UnitId },
}

/// A client's unvalidated intent, submitted for resolution.
#[derive(Debug)]
pub enum ProposedAction {
    Move { path: Path },
    Attack { target: UnitId, attack: AttackId },
    Ability { target: Option<UnitId> },
    Spawn { unit: UnitClassId, position: Position },
    EndTurn,
}

/// The mathematical content of a proposed action.
#[verifier::ext_equal]
pub ghost enum ActionView {
    Move { path: PathView },
    Attack { target: UnitId, attack: AttackId },
    Ability { target: Option<UnitId> },
    Spawn { unit: UnitClassId, position: Position },
    EndTurn,
}

impl View for ProposedAction {
    type V = ActionView;

    open spec fn view(&self) -> ActionView {
        match self {
            ProposedAction::Move { path } => ActionView::Move { path: path@ },
            ProposedAction::Attack { target, attack } => ActionView::Attack {
                target: *target,
                attack: *attack,
            },
            ProposedAction::Ability { target } => ActionView::Ability { target: *target },
            ProposedAction::Spawn { unit, position } => ActionView::Spawn {
                unit: *unit,
                position: *position,
            },
            ProposedAction::EndTurn => ActionView::EndTurn,
        }
    }
}

/// Why a proposal was rejected.
#[derive(Debug, Clone, Copy, PartialEq, Eq, Structural)]
pub enum GameError {
    NotYourTurn,
    InvalidUnit,
    InvalidPath,
    OutOfRange,
    NotEnoughResources,
    IllegalAction,
}

/// An immutable record of something that actually happened; broadcast to
/// clients and replayed from history. Each variant carries enough realized
/// data to be re-applied deterministically.
#[derive(Debug)]
pub enum ResolvedChange {
    Move { unit_id: UnitId, path: Path },
    Attack { attacker: UnitId, target: UnitId, attack: AttackId, deltas: Vec<(UnitId, i64)> },
    Ability { unit_id: UnitId },
    Spawn { unit: UnitClassId, owner: PlayerId, position: Position },
    EndTurn,
}

/// The mathematical content of a resolved change.
#[verifier::ext_equal]
pub ghost enum ChangeView {
    Move { unit_id: UnitId, path: PathView },
    Attack { attacker: UnitId, target: UnitId, attack: AttackId, deltas: Seq<(UnitId, i64)> },
    Ability { unit_id: UnitId },
    Spawn { unit: UnitClassId, owner: PlayerId, position: Position },
    EndTurn,
}

impl View for ResolvedChange {
    type V = ChangeView;

    open spec fn view(&self) -> ChangeView {
        match self {
            ResolvedChange::Move { unit_id, path } => ChangeView::Move {
                unit_id: *unit_id,
                path: path@,
            },
            ResolvedChange::Attack { attacker, target, attack, deltas } => ChangeView::Attack {
                attacker: *attacker,
                target: *target,
                attack: *attack,
                deltas: deltas@,
            },
            ResolvedChange::Ability { unit_id } => ChangeView::Ability { unit_id: *unit_id },
            ResolvedChange::Spawn { unit, owner, position } => ChangeView::Spawn {
                unit: *unit,
                owner: *owner,
                position: *position,
            },
            ResolvedChange::EndTurn => ChangeView::EndTurn,
        }
    }
}

/// One committed turn: its number, whose turn it was, and the ordered log of
/// what happened during it.
#[derive(Debug)]
pub struct Turn {
    pub turn_number: u32,
    pub phase: RoundPhase,
    pub changes: Vec<ResolvedChange>,
}

/// The mathematical content of a turn.
#[verifier::ext_equal]
pub ghost struct TurnView {
    pub turn_number: u32,
    pub phase: RoundPhase,
    pub changes: Seq<ChangeView>,
}

impl View for Turn {
    type V = TurnView;

    open spec fn view(&self) -> TurnView {
        TurnView {
            turn_number: self.turn_number,
            phase: self.phase,
            changes: self.changes@.map_values(|c: ResolvedChange| c@),
        }
    }
}

impl Turn {
    pub fn new(turn_number: u32, phase: RoundPhase) -> (t: Turn)
        ensures
            t@ == (TurnView { turn_number, phase, changes: Seq::<ChangeView>::empty() }),
    {
        let t = Turn { turn_number, phase, changes: Vec::new() };
        proof {
            assert(t@ =~= TurnView { turn_number, phase, changes: Seq::<ChangeView>::empty() });
        }
        t
    }

    /// Append a resolved change to this turn's log.
    pub fn log_change(&mut self, change: ResolvedChange)
        ensures
            final(self)@ == (TurnView { changes: old(self)@.changes.push(change@), ..old(self)@ }),
    {
        self.changes.push(change);
        proof {
            assert(final(self)@.changes =~= old(self)@.changes.push(change@));
            assert(final(self)@ =~= TurnView { changes: old(self)@.changes.push(change@), ..old(self)@ });
        }
    }
}

/// The replayable heart of the game state: everything a resolved change can
/// touch.
#[verifier::ext_equal]
pub ghost struct GameCoreView {
    pub units: Seq<UnitView>,
    pub grid: GridView,
    pub queue: Seq<UnitId>,
    pub round_number: u32,
    pub turn_number: u32,
    pub phase: RoundPhase,
}

/// A full, independently restorable copy of the game at a round boundary.
#[derive(Debug)]
pub struct RoundSnapshot {
    pub players: Vec<Player>,
    pub units: Vec<Unit>,
    pub grid: Grid,
    pub queue: UnitQueue,
    pub round_number: u32,
    pub turn_number: u32,
    pub phase: RoundPhase,
}

/// The mathematical content of a snapshot.
#[verifier::ext_equal]
pub ghost struct SnapshotView {
    pub players: Seq<PlayerView>,
    pub core: GameCoreView,
}

impl View for RoundSnapshot {
    type V = SnapshotView;

    open spec fn view(&self) -> SnapshotView {
        SnapshotView {
            players: self.players@.map_values(|p: Player| p@),
            core: GameCoreView {
                units: self.units@.map_values(|u: Unit| u@),
                grid: self.grid@,
                queue: self.queue@,
                round_number: self.round_number,
                turn_number: self.turn_number,
                phase: self.phase,
            },
        }
    }
}

/// The authoritative game state: participants, roster, board, turn order,
/// round bookkeeping, the running turn log and the snapshot store.
#[derive(Debug)]
pub struct Game {
    players: Vec<Player>,
    units: Vec<Unit>,
    grid: Grid,
    queue: UnitQueue,
    round_number: u32,
    turn_number: u32,
    curr_turn: Turn,
    history: Vec<Turn>,
    snapshots: Vec<RoundSnapshot>,
    attacks: Vec<(AttackId, AttackDefinition)>,
}

/// The mathematical content of the whole game.
#[verifier::ext_equal]
pub ghost struct GameView {
    pub players: Seq<PlayerView>,
    pub core: GameCoreView,
    pub curr_turn: TurnView,
    pub history: Seq<TurnView>,
    pub snapshots: Seq<SnapshotView>,
    pub attacks: Seq<(AttackId, AttackDefinition)>,
}

impl View for Game {
    type V = GameView;

    closed spec fn view(&self) -> GameView {
        GameView {
            players: self.players@.map_values(|p: Player| p@),
            core: GameCoreView {
                units: self.units@.map_values(|u: Unit| u@),
                grid: self.grid@,
                queue: self.queue@,
                round_number: self.round_number,
                turn_number: self.turn_number,
                phase: self.curr_turn.phase,
            },
            curr_turn: self.curr_turn@,
            history: self.history@.map_values(|t: Turn| t@),
            snapshots: self.snapshots@.map_values(|s: RoundSnapshot| s@),
            attacks: self.attacks@,
        }
    }
}

/// The core's well-formedness: the board is sound; unit ids are unique;
/// every unit stands in bounds, alive, on the cell that records it; every
/// occupied cell points back at a live unit standing there; the queue names
/// live units, each at most once; and an active unit is a live unit.
pub open spec fn core_wf(c: GameCoreView) -> bool {
    &&& c.grid.wf()
    &&& crate::turn::ids_distinct(c.units)
    &&& forall|k: int|
        0 <= k < c.units.len() ==> {
            &&& c.grid.in_bounds((#[trigger] c.units[k]).position)
            &&& c.grid.occupant(c.units[k].position) == Some(c.units[k].id)
            &&& c.units[k].health >= 1
        }
    &&& forall|i: int|
        0 <= i < c.grid.occupancy.len() ==> ((#[trigger] c.grid.occupancy[i]) matches Some(id)
            ==> exists|k: int|
            0 <= k < c.units.len() && (#[trigger] c.units[k]).id == id && c.grid.index_of(
                c.units[k].position,
            ) == i)
    &&& c.queue.no_duplicates()
    &&& forall|i: int| 0 <= i < c.queue.len() ==> unit_ids(c.units).contains(#[trigger] c.queue[i])
}

/// The largest unit id a roster holds, or -1 when it is empty.
pub open spec fn max_id(units: Seq<UnitView>) -> int
    decreases units.len(),
{
    if units.len() == 0 {
        -1
    } else if units.last().id.0 >= max_id(units.drop_last()) {
        units.last().id.0 as int
    } else {
        max_id(units.drop_last())
    }
}

/// The id the next spawned unit receives: one past the largest in use, or
/// zero on an empty roster.
pub open spec fn next_id(units: Seq<UnitView>) -> int {
    max_id(units) + 1
}

/// Update one unit of a roster.
pub open spec fn roster_update(units: Seq<UnitView>, id: UnitId, u: UnitView) -> Seq<UnitView> {
    let i = crate::turn::find_unit(units, id);
    if i >= 0 {
        units.update(i, u)
    } else {
        units
    }
}

/// Hand the unit carrying the given id a fresh turn budget.
pub open spec fn refresh_in(units: Seq<UnitView>, id: UnitId) -> Seq<UnitView> {
    let i = crate::turn::find_unit(units, id);
    if i >= 0 {
        units.update(i, UnitView { actions: default_budget(), ..units[i] })
    } else {
        units
    }
}

/// Apply one realized health delta: heals saturate at the integer ceiling;
/// harm that reaches or passes zero removes the unit from the roster, its
/// cell and the remaining queue, in the same step.
pub open spec fn apply_delta(c: GameCoreView, id: UnitId, dv: i64) -> GameCoreView {
    let i = crate::turn::find_unit(c.units, id);
    if i < 0 {
        c
    } else {
        let u = c.units[i];
        if dv >= 0 {
            let nh = if u.health + dv <= u32::MAX {
                (u.health + dv) as u32
            } else {
                u32::MAX
            };
            GameCoreView { units: c.units.update(i, UnitView { health: nh, ..u }), ..c }
        } else if u.health > -dv {
            GameCoreView {
                units: c.units.update(i, UnitView { health: (u.health + dv) as u32, ..u }),
                ..c
            }
        } else {
            GameCoreView {
                units: c.units.remove(i),
                grid: GridView {
                    occupancy: c.grid.occupancy.update(c.grid.index_of(u.position), None),
                    ..c.grid
                },
                queue: purge(c.queue, id),
                ..c
            }
        }
    }
}

/// Apply an ordered list of realized health deltas.
pub open spec fn apply_deltas(c: GameCoreView, ds: Seq<(UnitId, i64)>) -> GameCoreView
    decreases ds.len(),
{
    if ds.len() == 0 {
        c
    } else {
        apply_deltas(apply_delta(c, ds[0].0, ds[0].1), ds.drop_first())
    }
}

/// The turn transition an end-turn performs: after the spawn phase, the
/// queue is rebuilt from the full roster and the fastest unit's turn begins
/// with a fresh budget; after a unit turn, the next queued unit takes over,
/// or — with the queue drained — the round ends and the next one opens with
/// its spawn phase. A transition that would exhaust a counter, or end a
/// spawn phase with an empty roster, leaves the state unchanged (validation
/// refuses those proposals).
pub open spec fn end_turn_spec(c: GameCoreView) -> GameCoreView {
    if c.turn_number == u32::MAX {
        c
    } else {
        match c.phase {
            RoundPhase::SpawnPhase => {
                let q = queue_of(c.units);
                if q.len() == 0 {
                    c
                } else {
                    GameCoreView {
                        units: refresh_in(c.units, q[0]),
                        queue: q.drop_first(),
                        phase: RoundPhase::UnitTurn { unit: q[0] },
                        turn_number: (c.turn_number + 1) as u32,
                        ..c
                    }
                }
            },
            RoundPhase::UnitTurn { .. } => {
                if c.queue.len() > 0 {
                    GameCoreView {
                        units: refresh_in(c.units, c.queue[0]),
                        queue: c.queue.drop_first(),
                        phase: RoundPhase::UnitTurn { unit: c.queue[0] },
                        turn_number: (c.turn_number + 1) as u32,
                        ..c
                    }
                } else if c.round_number == u32::MAX {
                    c
                } else {
                    GameCoreView {
                        round_number: (c.round_number + 1) as u32,
                        phase: RoundPhase::SpawnPhase,
                        turn_number: (c.turn_number + 1) as u32,
                        ..c
                    }
                }
            },
        }
    }
}

/// What one resolved change does to the core: the deterministic replay
/// semantics. Live resolution and replay from history both step the state
/// with exactly this function.
pub open spec fn apply_change(c: GameCoreView, ch: ChangeView) -> GameCoreView {
    match ch {
        ChangeView::Move { unit_id, path } => {
            let i = crate::turn::find_unit(c.units, unit_id);
            if i < 0 {
                c
            } else {
                let u = c.units[i];
                GameCoreView {
                    units: c.units.update(
                        i,
                        UnitView {
                            position: path.end,
                            actions: spend(u.actions, ActionKind::Move),
                            ..u
                        },
                    ),
                    grid: GridView {
                        occupancy: c.grid.occupancy.update(
                            c.grid.index_of(path.start),
                            None,
                        ).update(c.grid.index_of(path.end), Some(unit_id)),
                        ..c.grid
                    },
                    ..c
                }
            }
        },
        ChangeView::Attack { attacker, deltas, .. } => {
            let i = crate::turn::find_unit(c.units, attacker);
            let spent = if i < 0 {
                c
            } else {
                let u = c.units[i];
                GameCoreView {
                    units: c.units.update(
                        i,
                        UnitView { actions: spend(u.actions, ActionKind::Attack), ..u },
                    ),
                    ..c
                }
            };
            apply_deltas(spent, deltas)
        },
        ChangeView::Ability { unit_id } => {
            let i = crate::turn::find_unit(c.units, unit_id);
            if i < 0 {
                c
            } else {
                let u = c.units[i];
                GameCoreView {
                    units: c.units.update(
                        i,
                        UnitView { actions: spend(u.actions, ActionKind::Ability), ..u },
                    ),
                    ..c
                }
            }
        },
        ChangeView::Spawn { unit, owner, position } => {
            let nid = next_id(c.units);
            if 0 <= nid <= u32::MAX {
                let id = UnitId(nid as u32);
                GameCoreView {
                    units: c.units.push(
                        UnitView {
                            id,
                            owner,
                            class: unit,
                            health: BASE_HEALTH,
                            actions: default_budget(),
                            position,
                        },
                    ),
                    grid: GridView {
                        occupancy: c.grid.occupancy.update(c.grid.index_of(position), Some(id)),
                        ..c.grid
                    },
                    ..c
                }
            } else {
                c
            }
        },
        ChangeView::EndTurn => end_turn_spec(c),
    }
}

/// Replay an ordered change log from a starting core.
pub open spec fn replay(c: GameCoreView, log: Seq<ChangeView>) -> GameCoreView
    decreases log.len(),
{
    if log.len() == 0 {
        c
    } else {
        replay(apply_change(c, log[0]), log.drop_first())
    }
}

/// Whether a walk from `pos` along `steps` stays on the board and crosses
/// only walkable cells.
pub open spec fn path_ok(g: GridView, pos: Position, steps: Seq<crate::direction::Direction>) -> bool
    decreases steps.len(),
{
    if steps.len() == 0 {
        true
    } else {
        let d = steps[0].spec_vec();
        &&& 0 <= pos.x + d.dx < g.width
        &&& 0 <= pos.y + d.dy < g.height
        &&& {
            let np = Position { x: (pos.x + d.dx) as usize, y: (pos.y + d.dy) as usize };
            g.terrain_at(np).spec_walkable() && path_ok(g, np, steps.drop_first())
        }
    }
}

/// Where a walk from `pos` along `steps` arrives.
pub open spec fn path_dest(pos: Position, steps: Seq<crate::direction::Direction>) -> Position
    decreases steps.len(),
{
    if steps.len() == 0 {
        pos
    } else {
        let d = steps[0].spec_vec();
        path_dest(
            Position { x: (pos.x + d.dx) as usize, y: (pos.y + d.dy) as usize },
            steps.drop_first(),
        )
    }
}

/// The terrain cost of a walk: the summed cost of every cell entered.
pub open spec fn path_cost(g: GridView, pos: Position, steps: Seq<crate::direction::Direction>) -> int
    decreases steps.len(),
{
    if steps.len() == 0 {
        0
    } else {
        let d = steps[0].spec_vec();
        let np = Position { x: (pos.x + d.dx) as usize, y: (pos.y + d.dy) as usize };
        g.terrain_at(np).spec_cost() + path_cost(g, np, steps.drop_first())
    }
}

/// A valid walk from an in-bounds cell arrives in bounds.
pub proof fn lemma_path_dest_bounds(
    g: GridView,
    pos: Position,
    steps: Seq<crate::direction::Direction>,
)
    requires
        path_ok(g, pos, steps),
        g.in_bounds(pos),
    ensures
        g.in_bounds(path_dest(pos, steps)),
    decreases steps.len(),
{
    if steps.len() > 0 {
        let d = steps[0].spec_vec();
        let np = Position { x: (pos.x + d.dx) as usize, y: (pos.y + d.dy) as usize };
        lemma_path_dest_bounds(g, np, steps.drop_first());
    }
}

/// Every unit id of a roster is at most the roster's maximum.
pub proof fn lemma_max_id(units: Seq<UnitView>)
    ensures
        forall|k: int| 0 <= k < units.len() ==> (#[trigger] units[k]).id.0 <= max_id(units),
    decreases units.len(),
{
    if units.len() > 0 {
        lemma_max_id(units.drop_last());
        assert forall|k: int| 0 <= k < units.len() implies (#[trigger] units[k]).id.0 <= max_id(
            units,
        ) by {
            if k < units.len() - 1 {
                assert(units.drop_last()[k] == units[k]);
            }
        }
    }
}

/// The terrain-cost allowance of one move proposal; a stand-in for the
/// class-defined movement budget of the external content tables.
pub const MOVE_BUDGET: i64 = 5;

/// The largest number of live units one player may own; a stand-in for the
/// external spawn quota.
pub const SPAWN_QUOTA: usize = 16;

/// Whether the submitting player is a known participant.
pub open spec fn player_known(g: GameView, p: PlayerId) -> bool {
    exists|i: int| 0 <= i < g.players.len() && (#[trigger] g.players[i]).id == p
}

/// Turn legality: during a unit's turn only that unit's owner may act (and
/// may not spawn); during the spawn phase any known player may spawn or end
/// the phase; the turn of a unit that died under its own strike may be
/// ended by any known player.
pub open spec fn action_legal(g: GameView, player: PlayerId, a: ActionView) -> bool {
    &&& player_known(g, player)
    &&& match g.core.phase {
        RoundPhase::SpawnPhase => a is Spawn || a is EndTurn,
        RoundPhase::UnitTurn { unit } => {
            let i = crate::turn::find_unit(g.core.units, unit);
            if i >= 0 {
                !(a is Spawn) && g.core.units[i].owner == player
            } else {
                a is EndTurn
            }
        },
    }
}

/// Index of the first table entry carrying the attack id, or -1.
pub open spec fn find_attack(t: Seq<(AttackId, AttackDefinition)>, id: AttackId) -> int
    decreases t.len(),
{
    if t.len() == 0 {
        -1
    } else if t[0].0 == id {
        0
    } else if find_attack(t.drop_first(), id) < 0 {
        -1
    } else {
        1 + find_attack(t.drop_first(), id)
    }
}

/// `find_attack` is the first index carrying the id, when one does.
pub proof fn lemma_find_attack(t: Seq<(AttackId, AttackDefinition)>, id: AttackId)
    ensures
        -1 <= find_attack(t, id) < t.len(),
        find_attack(t, id) >= 0 ==> t[find_attack(t, id)].0 == id,
        forall|l: int| 0 <= l < find_attack(t, id) ==> t[l].0 != id,
        (find_attack(t, id) >= 0) <==> exists|k: int| 0 <= k < t.len() && (#[trigger] t[k]).0 == id,
    decreases t.len(),
{
    if t.len() == 0 {
    } else if t[0].0 == id {
    } else {
        let tail = t.drop_first();
        lemma_find_attack(tail, id);
        assert forall|l: int| 0 <= l < find_attack(t, id) implies t[l].0 != id by {
            if l > 0 {
                assert(tail[l - 1] == t[l]);
            }
        }
        if exists|k: int| 0 <= k < t.len() && (#[trigger] t[k]).0 == id {
            let k = choose|k: int| 0 <= k < t.len() && (#[trigger] t[k]).0 == id;
            assert(tail[k - 1] == t[k]);
        }
        if exists|k: int| 0 <= k < tail.len() && (#[trigger] tail[k]).0 == id {
            let k = choose|k: int| 0 <= k < tail.len() && (#[trigger] tail[k]).0 == id;
            assert(t[k + 1].0 == id);
        }
    }
}

/// How many live units a player owns.
pub open spec fn count_owned(units: Seq<UnitView>, p: PlayerId) -> int
    decreases units.len(),
{
    if units.len() == 0 {
        0int
    } else {
        (if units[0].owner == p {
            1int
        } else {
            0int
        }) + count_owned(units.drop_first(), p)
    }
}

/// Owned counts never exceed the roster size.
pub proof fn lemma_count_owned_bounds(units: Seq<UnitView>, p: PlayerId)
    ensures
        0 <= count_owned(units, p) <= units.len(),
    decreases units.len(),
{
    if units.len() > 0 {
        lemma_count_owned_bounds(units.drop_first(), p);
    }
}

/// Aim-order comparison: strikes land nearest to the attacker first, ties
/// broken by ascending unit id.
pub open spec fn aim_le(a: (u32, u32), b: (u32, u32)) -> bool {
    a.0 < b.0 || (a.0 == b.0 && a.1 <= b.1)
}

/// The aim comparison as a relation value.
pub open spec fn aim_le_fn() -> spec_fn((u32, u32), (u32, u32)) -> bool {
    |a: (u32, u32), b: (u32, u32)| aim_le(a, b)
}

/// The aim order is reflexive, antisymmetric, transitive and total.
pub proof fn lemma_aim_le_total()
    ensures
        vstd::relations::total_ordering(aim_le_fn()),
{
}

/// Whether a unit is struck by an attack from `apos` (owned by `aowner`) on
/// `tpos`: it stands on an affected cell and passes the target filter.
pub open spec fn hit_pred(
    def: AttackDefinition,
    apos: Position,
    aowner: PlayerId,
    tpos: Position,
) -> spec_fn(UnitView) -> bool {
    |u: UnitView|
        crate::combat::cell_affected(def.aoe, apos, tpos, u.position)
            && crate::combat::filter_admits(def.target, aowner, u.owner)
}

/// The aim keys (distance from the attacker, unit id) of every struck unit,
/// in roster order.
pub open spec fn aim_keys(
    units: Seq<UnitView>,
    def: AttackDefinition,
    apos: Position,
    aowner: PlayerId,
    tpos: Position,
) -> Seq<(u32, u32)> {
    units.filter(hit_pred(def, apos, aowner, tpos)).map_values(
        |u: UnitView| (apos.spec_dist(u.position) as u32, u.id.0),
    )
}

/// The realized deltas of an attack: one strike per struck unit, nearest to
/// the attacker first, ties by ascending id.
pub open spec fn attack_deltas(
    units: Seq<UnitView>,
    def: AttackDefinition,
    apos: Position,
    aowner: PlayerId,
    tpos: Position,
) -> Seq<(UnitId, i64)> {
    aim_keys(units, def, apos, aowner, tpos).sort_by(aim_le_fn()).map_values(
        |k: (u32, u32)| (UnitId(k.1), crate::combat::spec_health_delta(def) as i64),
    )
}

/// The roster after the attacker's attack point is spent.
pub open spec fn spent_roster(c: GameCoreView, attacker: UnitId) -> Seq<UnitView> {
    let i = crate::turn::find_unit(c.units, attacker);
    if i < 0 {
        c.units
    } else {
        c.units.update(
            i,
            UnitView { actions: spend(c.units[i].actions, ActionKind::Attack), ..c.units[i] },
        )
    }
}

/// What a proposal resolves to: the exact change a valid proposal produces,
/// or the exact error a rejected one is answered with.
pub open spec fn resolve_spec(g: GameView, player: PlayerId, a: ActionView) -> Result<
    ChangeView,
    GameError,
> {
    if !action_legal(g, player, a) {
        Err(GameError::NotYourTurn)
    } else {
        match a {
            ActionView::Move { path } => {
                let unit = g.core.phase->unit;
                let i = crate::turn::find_unit(g.core.units, unit);
                let u = g.core.units[i];
                if !(path.start == u.position && path_ok(g.core.grid, path.start, path.steps)
                    && path.end == path_dest(path.start, path.steps) && (g.core.grid.occupant(
                    path.end,
                ) is None || path.end == path.start)) {
                    Err(GameError::InvalidPath)
                } else if path_cost(g.core.grid, path.start, path.steps) > MOVE_BUDGET as int {
                    Err(GameError::OutOfRange)
                } else if !crate::unit::has_action(u.actions, ActionKind::Move) {
                    Err(GameError::IllegalAction)
                } else {
                    Ok(ChangeView::Move { unit_id: unit, path })
                }
            },
            ActionView::Attack { target, attack } => {
                let unit = g.core.phase->unit;
                let i = crate::turn::find_unit(g.core.units, unit);
                let u = g.core.units[i];
                let ai = find_attack(g.attacks, attack);
                if ai < 0 {
                    Err(GameError::IllegalAction)
                } else {
                    let def = g.attacks[ai].1;
                    let ti = crate::turn::find_unit(g.core.units, target);
                    if ti < 0 {
                        Err(GameError::InvalidUnit)
                    } else {
                        let t = g.core.units[ti];
                        if !crate::combat::filter_admits(def.target, u.owner, t.owner) {
                            Err(GameError::IllegalAction)
                        } else if !crate::combat::in_range(
                            def.range,
                            u.position.spec_dist(t.position),
                        ) {
                            Err(GameError::OutOfRange)
                        } else if !crate::unit::has_action(u.actions, ActionKind::Attack) {
                            Err(GameError::IllegalAction)
                        } else {
                            Ok(
                                ChangeView::Attack {
                                    attacker: unit,
                                    target,
                                    attack,
                                    deltas: attack_deltas(
                                        g.core.units,
                                        def,
                                        u.position,
                                        u.owner,
                                        t.position,
                                    ),
                                },
                            )
                        }
                    }
                }
            },
            ActionView::Ability { target } => {
                let unit = g.core.phase->unit;
                let i = crate::turn::find_unit(g.core.units, unit);
                let u = g.core.units[i];
                if !crate::unit::has_action(u.actions, ActionKind::Ability) {
                    Err(GameError::IllegalAction)
                } else {
                    Ok(ChangeView::Ability { unit_id: unit })
                }
            },
            ActionView::Spawn { unit, position } => {
                if !(g.core.grid.in_bounds(position) && g.core.grid.terrain_at(
                    position,
                ).spec_walkable() && g.core.grid.occupant(position) is None) {
                    Err(GameError::IllegalAction)
                } else if count_owned(g.core.units, player) >= SPAWN_QUOTA as int {
                    Err(GameError::NotEnoughResources)
                } else if next_id(g.core.units) > u32::MAX {
                    Err(GameError::NotEnoughResources)
                } else {
                    Ok(ChangeView::Spawn { unit, owner: player, position })
                }
            },
            ActionView::EndTurn => {
                if g.core.phase is SpawnPhase && g.core.units.len() == 0 {
                    Err(GameError::IllegalAction)
                } else if g.core.turn_number == u32::MAX || g.core.round_number == u32::MAX {
                    Err(GameError::IllegalAction)
                } else {
                    Ok(ChangeView::EndTurn)
                }
            },
        }
    }
}

/// Applying a list of deltas and then one more is applying the extended
/// list.
pub proof fn lemma_apply_deltas_push(c: GameCoreView, ds: Seq<(UnitId, i64)>, d: (UnitId, i64))
    ensures
        apply_deltas(c, ds.push(d)) == apply_delta(apply_deltas(c, ds), d.0, d.1),
    decreases ds.len(),
{
    if ds.len() == 0 {
        assert(ds.push(d)[0] == d);
        assert(ds.push(d).drop_first() =~= Seq::<(UnitId, i64)>::empty());
        assert(apply_deltas(c, ds.push(d)) == apply_deltas(
            apply_delta(c, d.0, d.1),
            ds.push(d).drop_first(),
        ));
        assert(apply_deltas(apply_delta(c, d.0, d.1), ds.push(d).drop_first()) == apply_delta(
            c,
            d.0,
            d.1,
        ));
    } else {
        assert(ds.push(d)[0] == ds[0]);
        assert(ds.push(d).drop_first() =~= ds.drop_first().push(d));
        lemma_apply_deltas_push(apply_delta(c, ds[0].0, ds[0].1), ds.drop_first(), d);
        assert(apply_deltas(c, ds.push(d)) == apply_deltas(
            apply_delta(c, ds[0].0, ds[0].1),
            ds.drop_first().push(d),
        ));
        assert(apply_deltas(c, ds) == apply_deltas(
            apply_delta(c, ds[0].0, ds[0].1),
            ds.drop_first(),
        ));
    }
}

/// One realized delta keeps the core well formed.
pub proof fn lemma_delta_wf(c: GameCoreView, id: UnitId, dv: i64)
    requires
        core_wf(c),
    ensures
        core_wf(apply_delta(c, id, dv)),
{
    let c1 = apply_delta(c, id, dv);
    let i = crate::turn::find_unit(c.units, id);
    crate::turn::lemma_find_unit(c.units, id);
    if i < 0 {
    } else {
        let u = c.units[i];
        if dv >= 0 || u.health > -dv {
            assert forall|k: int| 0 <= k < c1.queue.len() implies unit_ids(c1.units).contains(
                #[trigger] c1.queue[k],
            ) by {
                assert(unit_ids(c1.units) =~= unit_ids(c.units));
            }
            lemma_wf_units_similar(c, c1);
        } else {
            // The unit dies: it leaves the roster, its cell and the queue
            // together.
            assert(crate::turn::ids_distinct(c1.units)) by {
                assert forall|a: int, b: int| 0 <= a < b < c1.units.len() implies c1.units[a].id
                    != c1.units[b].id by {
                    let a0 = if a < i {
                        a
                    } else {
                        a + 1
                    };
                    let b0 = if b < i {
                        b
                    } else {
                        b + 1
                    };
                    assert(c1.units[a] == c.units[a0] && c1.units[b] == c.units[b0]);
                }
            }
            crate::grid::lemma_index_in_range(c.grid, u.position);
            assert forall|k: int| 0 <= k < c1.units.len() implies {
                &&& c1.grid.in_bounds((#[trigger] c1.units[k]).position)
                &&& c1.grid.occupant(c1.units[k].position) == Some(c1.units[k].id)
                &&& c1.units[k].health >= 1
            } by {
                let k0 = if k < i {
                    k
                } else {
                    k + 1
                };
                assert(c1.units[k] == c.units[k0]);
                crate::grid::lemma_index_in_range(c.grid, c.units[k0].position);
                if c.grid.index_of(c.units[k0].position) == c.grid.index_of(u.position) {
                    assert(c.grid.occupant(c.units[k0].position) == c.grid.occupant(u.position));
                    assert(c.units[k0].id == u.id);
                    assert(false);
                }
            }
            assert forall|j: int|
                0 <= j < c1.grid.occupancy.len() implies ((#[trigger] c1.grid.occupancy[j]) matches Some(
                uid,
            ) ==> exists|k: int|
                0 <= k < c1.units.len() && (#[trigger] c1.units[k]).id == uid && c1.grid.index_of(
                    c1.units[k].position,
                ) == j) by {
                if c1.grid.occupancy[j] is Some {
                    let uid = c1.grid.occupancy[j]->0;
                    assert(j != c.grid.index_of(u.position));
                    assert(c.grid.occupancy[j] == c1.grid.occupancy[j]);
                    let k0 = choose|k0: int|
                        0 <= k0 < c.units.len() && (#[trigger] c.units[k0]).id == uid
                            && c.grid.index_of(c.units[k0].position) == j;
                    if k0 == i {
                        assert(c.grid.index_of(c.units[i].position) == c.grid.index_of(u.position));
                        assert(false);
                    }
                    let k1 = if k0 < i {
                        k0
                    } else {
                        k0 - 1
                    };
                    assert(c1.units[k1] == c.units[k0]);
                }
            }
            crate::turn::lemma_purge_props(c.queue, id);
            assert forall|k: int| 0 <= k < c1.queue.len() implies unit_ids(c1.units).contains(
                #[trigger] c1.queue[k],
            ) by {
                assert(purge(c.queue, id).contains(c1.queue[k]));
                assert(c.queue.contains(c1.queue[k]) && c1.queue[k] != id);
                let m = choose|m: int|
                    0 <= m < c.queue.len() && #[trigger] c.queue[m] == c1.queue[k];
                assert(unit_ids(c.units).contains(c.queue[m]));
                let k0 = choose|k0: int|
                    0 <= k0 < c.units.len() && #[trigger] unit_ids(c.units)[k0] == c.queue[m];
                assert(c.units[k0].id == c1.queue[k]);
                if k0 == i {
                    assert(false);
                }
                let k1 = if k0 < i {
                    k0
                } else {
                    k0 - 1
                };
                assert(c1.units[k1] == c.units[k0]);
                assert(unit_ids(c1.units)[k1] == c1.queue[k]);
            }
        }
    }
}

/// A whole delta list keeps the core well formed.
pub proof fn lemma_deltas_wf(c: GameCoreView, ds: Seq<(UnitId, i64)>)
    requires
        core_wf(c),
    ensures
        core_wf(apply_deltas(c, ds)),
    decreases ds.len(),
{
    if ds.len() > 0 {
        lemma_delta_wf(c, ds[0].0, ds[0].1);
        lemma_deltas_wf(apply_delta(c, ds[0].0, ds[0].1), ds.drop_first());
    }
}

/// What one call of the mutation entry point leaves behind: on rejection
/// the exact error with the state untouched; on success the exact resolved
/// change, the core stepped by it, the running log (or, for an end-turn,
/// history and the snapshot store) extended accordingly.
pub open spec fn proposal_outcome(
    g0: GameView,
    g1: GameView,
    player: PlayerId,
    a: ActionView,
    r: Result<ChangeView, GameError>,
) -> bool {
    match r {
        Err(e) => g1 == g0 && resolve_spec(g0, player, a) == Err::<ChangeView, GameError>(e),
        Ok(ch) => {
            &&& resolve_spec(g0, player, a) == Ok::<ChangeView, GameError>(ch)
            &&& g1.core == apply_change(g0.core, ch)
            &&& g1.players == g0.players
            &&& g1.attacks == g0.attacks
            &&& if ch is EndTurn {
                &&& g1.history == g0.history.push(
                    TurnView {
                        changes: g0.curr_turn.changes.push(ChangeView::EndTurn),
                        ..g0.curr_turn
                    },
                )
                &&& g1.curr_turn == (TurnView {
                    turn_number: g1.core.turn_number,
                    phase: g1.core.phase,
                    changes: Seq::<ChangeView>::empty(),
                })
                &&& g1.snapshots == if g0.core.phase is UnitTurn && g0.core.queue.len() == 0 {
                    g0.snapshots.push(SnapshotView { players: g0.players, core: g1.core })
                } else {
                    g0.snapshots
                }
            } else {
                &&& g1.curr_turn == (TurnView {
                    changes: g0.curr_turn.changes.push(ch),
                    ..g0.curr_turn
                })
                &&& g1.history == g0.history
                &&& g1.snapshots == g0.snapshots
            }
        },
    }
}

/// Walk a proposed path: reports whether it is contiguous, in bounds and
/// walkable; if it is, where it arrives, and whether its cost fits the
/// movement budget.
fn check_path(grid: &Grid, start: Position, steps: &Vec<crate::direction::Direction>) -> (r: (
    bool,
    Position,
    bool,
))
    requires
        grid@.wf(),
        grid@.in_bounds(start),
    ensures
        r.0 == path_ok(grid@, start, steps@),
        r.0 ==> r.1 == path_dest(start, steps@),
        r.0 ==> (r.2 == (path_cost(grid@, start, steps@) <= MOVE_BUDGET as int)),
{
    let mut pos = start;
    let mut i: usize = 0;
    let mut cost: i64 = 0;
    proof {
        assert(steps@.subrange(0, steps@.len() as int) =~= steps@);
    }
    while i < steps.len()
        invariant
            grid@.wf(),
            i <= steps@.len(),
            grid@.in_bounds(pos),
            path_ok(grid@, start, steps@) == path_ok(
                grid@,
                pos,
                steps@.subrange(i as int, steps@.len() as int),
            ),
            path_ok(grid@, start, steps@) ==> path_dest(start, steps@) == path_dest(
                pos,
                steps@.subrange(i as int, steps@.len() as int),
            ),
            path_ok(grid@, start, steps@) ==> {
                let cpre = path_cost(grid@, start, steps@) - path_cost(
                    grid@,
                    pos,
                    steps@.subrange(i as int, steps@.len() as int),
                );
                cost == if cpre <= MOVE_BUDGET as int {
                    cpre
                } else {
                    MOVE_BUDGET as int + 1
                }
            },
            0 <= cost <= MOVE_BUDGET + 1,
        decreases steps@.len() - i,
    {
        let ghost rest = steps@.subrange(i as int, steps@.len() as int);
        proof {
            assert(rest[0] == steps@[i as int]);
            assert(rest.drop_first() =~= steps@.subrange(i + 1, steps@.len() as int));
        }
        let d = steps[i].dir_vec();
        let nx: i64 = pos.x as i64 + d.dx as i64;
        let ny: i64 = pos.y as i64 + d.dy as i64;
        if !(0 <= nx && nx < grid.width() as i64 && 0 <= ny && ny < grid.height() as i64) {
            proof {
                assert(!path_ok(grid@, pos, rest));
            }
            return (false, pos, false);
        }
        let np = Position::new(nx as usize, ny as usize);
        let t = match grid.get_terrain_type(np) {
            Some(t) => *t,
            None => {
                proof {
                    assert(false);
                }
                crate::terrain::TerrainType::Ground
            },
        };
        if !t.is_walkable() {
            proof {
                assert(!path_ok(grid@, pos, rest));
            }
            return (false, pos, false);
        }
        let c = t.get_cost();
        proof {
            assert(t.spec_cost() == 1 || t.spec_cost() == 2);
        }
        if cost + c as i64 <= MOVE_BUDGET {
            cost = cost + c as i64;
        } else {
            cost = MOVE_BUDGET + 1;
        }
        pos = np;
        i = i + 1;
    }
    proof {
        assert(steps@.subrange(steps@.len() as int, steps@.len() as int) =~= Seq::<
            crate::direction::Direction,
        >::empty());
    }
    (true, pos, cost <= MOVE_BUDGET)
}

/// Sort aim keys: nearest to the attacker first, ties by ascending id.
fn sort_aim(input: &Vec<(u32, u32)>) -> (out: Vec<(u32, u32)>)
    ensures
        out@.to_multiset() == input@.to_multiset(),
        vstd::relations::sorted_by(out@, aim_le_fn()),
{
    broadcast use vstd::seq_lib::group_to_multiset_ensures;

    let mut out: Vec<(u32, u32)> = Vec::new();
    let mut i: usize = 0;
    proof {
        assert(input@.subrange(0, 0) =~= Seq::<(u32, u32)>::empty());
        assert(out@.to_multiset() =~= input@.subrange(0, 0).to_multiset());
    }
    while i < input.len()
        invariant
            i <= input.len(),
            out@.len() == i,
            out@.to_multiset() == input@.subrange(0, i as int).to_multiset(),
            vstd::relations::sorted_by(out@, aim_le_fn()),
        decreases input.len() - i,
    {
        let x = input[i];
        let mut j: usize = 0;
        while j < out.len() && (out[j].0 < x.0 || (out[j].0 == x.0 && out[j].1 <= x.1))
            invariant
                j <= out.len(),
                forall|k: int| 0 <= k < j ==> aim_le(#[trigger] out@[k], x),
            decreases out.len() - j,
        {
            j = j + 1;
        }
        let ghost prev = out@;
        let ghost ale = aim_le_fn();
        out.insert(j, x);
        proof {
            assert forall|a: int, b: int| 0 <= a < b < out@.len() implies ale(
                #[trigger] out@[a],
                #[trigger] out@[b],
            ) by {
                if j < prev.len() {
                    assert(!aim_le(prev[j as int], x));
                }
                if a < j && b == j {
                    assert(aim_le(prev[a], x));
                } else if a == j && b > j {
                    if b - 1 > j {
                        assert(ale(prev[j as int], prev[b - 1]));
                    }
                    assert(aim_le(x, prev[b - 1]));
                } else if a < j && b > j {
                    assert(ale(prev[a], prev[b - 1]));
                } else if b < j || a > j {
                    assert(ale(prev[if a < j { a } else { a - 1 }], prev[if b < j {
                        b
                    } else {
                        b - 1
                    }]));
                }
            }
            assert(vstd::relations::sorted_by(out@, aim_le_fn()));
            crate::turn::lemma_insert_multiset(prev, j as int, x);
            input@.subrange(0, i as int).to_multiset_ensures();
            assert(input@.subrange(0, i + 1) =~= input@.subrange(0, i as int).push(x));
            assert(input@.subrange(0, i as int).push(x).to_multiset() =~= input@.subrange(
                0,
                i as int,
            ).to_multiset().insert(x));
        }
        i = i + 1;
    }
    proof {
        assert(input@.subrange(0, input@.len() as int) =~= input@);
    }
    out
}

/// After a successful move the unit's stored position and the grid's
/// occupancy agree: the destination cell — and no other — holds the moving
/// unit, and the origin cell is vacated unless the move ends where it
/// began.
pub proof fn lemma_move_occupancy(c: GameCoreView, unit_id: UnitId, pv: PathView)
    requires
        core_wf(c),
        crate::turn::find_unit(c.units, unit_id) >= 0,
        pv.start == c.units[crate::turn::find_unit(c.units, unit_id)].position,
        path_ok(c.grid, pv.start, pv.steps),
        pv.end == path_dest(pv.start, pv.steps),
        c.grid.occupant(pv.end) is None || pv.end == pv.start,
    ensures
        ({
            let c1 = apply_change(c, ChangeView::Move { unit_id, path: pv });
            &&& c1.units[crate::turn::find_unit(c.units, unit_id)].position == pv.end
            &&& c1.grid.occupant(pv.end) == Some(unit_id)
            &&& (pv.end != pv.start ==> c1.grid.occupant(pv.start) is None)
            &&& forall|p: Position|
                c1.grid.in_bounds(p) ==> ((#[trigger] c1.grid.occupant(p)) == Some(unit_id) <==> p
                    == pv.end)
        }),
{
    let c1 = apply_change(c, ChangeView::Move { unit_id, path: pv });
    let iu = crate::turn::find_unit(c.units, unit_id);
    crate::turn::lemma_find_unit(c.units, unit_id);
    let u = c.units[iu];
    lemma_path_dest_bounds(c.grid, pv.start, pv.steps);
    crate::grid::lemma_index_in_range(c.grid, pv.start);
    crate::grid::lemma_index_in_range(c.grid, pv.end);
    assert forall|p: Position| c1.grid.in_bounds(p) implies ((#[trigger] c1.grid.occupant(p))
        == Some(unit_id) <==> p == pv.end) by {
        crate::grid::lemma_index_in_range(c.grid, p);
        if c1.grid.occupant(p) == Some(unit_id) {
            if c1.grid.index_of(p) == c1.grid.index_of(pv.end) {
                crate::grid::lemma_index_injective(c.grid, p, pv.end);
            } else if c1.grid.index_of(p) == c1.grid.index_of(pv.start) {
                assert(false);
            } else {
                assert(c.grid.occupant(p) == Some(unit_id));
                let k = choose|k: int|
                    0 <= k < c.units.len() && (#[trigger] c.units[k]).id == unit_id
                        && c.grid.index_of(c.units[k].position) == c.grid.index_of(p);
                assert(k == iu);
                assert(c.grid.index_of(p) == c.grid.index_of(pv.start));
                assert(false);
            }
        }
        if p == pv.end {
            assert(c1.grid.occupant(p) == Some(unit_id));
        }
    }
}

/// Iterate the end-turn transition.
pub open spec fn end_turns(c: GameCoreView, k: nat) -> GameCoreView
    decreases k,
{
    if k == 0 {
        c
    } else {
        end_turn_spec(end_turns(c, (k - 1) as nat))
    }
}

/// Within a round, end-turns visit exactly the queued units, in order: after
/// the k-th end-turn the k-th queued unit is active and the units behind it
/// keep their order.
pub proof fn lemma_round_turn_count(c: GameCoreView, k: nat)
    requires
        c.phase is UnitTurn,
        c.turn_number + c.queue.len() + 1 <= u32::MAX,
        c.round_number < u32::MAX,
        1 <= k <= c.queue.len(),
    ensures
        end_turns(c, k).phase == (RoundPhase::UnitTurn { unit: c.queue[k - 1] }),
        end_turns(c, k).queue =~= c.queue.skip(k as int),
        end_turns(c, k).round_number == c.round_number,
        end_turns(c, k).turn_number == c.turn_number + k,
    decreases k,
{
    if k == 1 {
        assert(end_turns(c, 1) == end_turn_spec(end_turns(c, 0)));
        assert(end_turns(c, 0) == c);
        assert(c.queue.drop_first() =~= c.queue.skip(1));
    } else {
        lemma_round_turn_count(c, (k - 1) as nat);
        let prev = end_turns(c, (k - 1) as nat);
        assert(prev.queue.len() == c.queue.len() - (k - 1));
        assert(prev.queue[0] == c.queue[k - 1]);
        assert(prev.queue.drop_first() =~= c.queue.skip(k as int));
    }
}

/// A queue of n units is drained by exactly n end-turns; the next one closes
/// the round and opens the following round's spawn phase.
pub proof fn lemma_round_returns_to_spawn(c: GameCoreView)
    requires
        c.phase is UnitTurn,
        c.turn_number + c.queue.len() + 1 <= u32::MAX,
        c.round_number < u32::MAX,
    ensures
        forall|k: nat|
            1 <= k <= c.queue.len() ==> (#[trigger] end_turns(c, k)).phase == (RoundPhase::UnitTurn {
                unit: c.queue[k - 1],
            }),
        end_turns(c, (c.queue.len() + 1) as nat).phase is SpawnPhase,
        end_turns(c, (c.queue.len() + 1) as nat).round_number == c.round_number + 1,
{
    assert forall|k: nat|
        1 <= k <= c.queue.len() implies (#[trigger] end_turns(c, k)).phase == (RoundPhase::UnitTurn {
        unit: c.queue[k - 1],
    }) by {
        lemma_round_turn_count(c, k);
    }
    let n = c.queue.len() as nat;
    if n == 0 {
        assert(end_turns(c, 1) == end_turn_spec(c));
    } else {
        lemma_round_turn_count(c, n);
        let last = end_turns(c, n);
        assert(last.queue.len() == 0);
        assert(end_turns(c, (n + 1) as nat) == end_turn_spec(last));
    }
}

/// Live execution and replay agree: any run whose steps each apply one
/// logged change — which is what the mutation entry point guarantees of
/// every accepted proposal — ends exactly where replaying its log from the
/// starting core ends. This is what makes restoring a snapshot and
/// replaying the turn log sound.
pub proof fn lemma_replay_reproduces_live(states: Seq<GameCoreView>, log: Seq<ChangeView>)
    requires
        states.len() == log.len() + 1,
        forall|i: int|
            0 <= i < log.len() ==> states[i + 1] == apply_change(#[trigger] states[i], log[i]),
    ensures
        states.last() == replay(states[0], log),
    decreases log.len(),
{
    if log.len() == 0 {
    } else {
        let st = states.drop_first();
        let lt = log.drop_first();
        assert forall|i: int| 0 <= i < lt.len() implies st[i + 1] == apply_change(
            #[trigger] st[i],
            lt[i],
        ) by {
            assert(st[i] == states[i + 1] && st[i + 1] == states[i + 2] && lt[i] == log[i + 1]);
            assert(states[i + 2] == apply_change(states[i + 1], log[i + 1]));
        }
        lemma_replay_reproduces_live(st, lt);
        assert(st[0] == states[1]);
        assert(states[1] == apply_change(states[0], log[0]));
        assert(st.last() == states.last());
    }
}

/// A validated spawn keeps the core well formed.
pub proof fn lemma_spawn_wf(c: GameCoreView, class: UnitClassId, owner: PlayerId, pos: Position)
    requires
        core_wf(c),
        c.grid.in_bounds(pos),
        c.grid.occupant(pos) is None,
        next_id(c.units) <= u32::MAX,
    ensures
        core_wf(apply_change(c, ChangeView::Spawn { unit: class, owner, position: pos })),
{
    let c1 = apply_change(c, ChangeView::Spawn { unit: class, owner, position: pos });
    let id = UnitId(next_id(c.units) as u32);
    lemma_max_id(c.units);
    crate::grid::lemma_index_in_range(c.grid, pos);
    assert(crate::turn::ids_distinct(c1.units)) by {
        assert forall|i: int, j: int| 0 <= i < j < c1.units.len() implies c1.units[i].id
            != c1.units[j].id by {
            if j == c1.units.len() - 1 {
                assert(c1.units[i] == c.units[i]);
                assert(c.units[i].id.0 <= max_id(c.units));
            }
        }
    }
    assert forall|k: int| 0 <= k < c1.units.len() implies {
        &&& c1.grid.in_bounds((#[trigger] c1.units[k]).position)
        &&& c1.grid.occupant(c1.units[k].position) == Some(c1.units[k].id)
        &&& c1.units[k].health >= 1
    } by {
        if k < c.units.len() {
            assert(c1.units[k] == c.units[k]);
            crate::grid::lemma_index_in_range(c.grid, c.units[k].position);
            if c1.grid.index_of(c.units[k].position) == c1.grid.index_of(pos) {
                assert(c.grid.occupant(c.units[k].position) == c.grid.occupant(pos));
                assert(false);
            }
        }
    }
    assert forall|i: int|
        0 <= i < c1.grid.occupancy.len() implies ((#[trigger] c1.grid.occupancy[i]) matches Some(
        uid,
    ) ==> exists|k: int|
        0 <= k < c1.units.len() && (#[trigger] c1.units[k]).id == uid && c1.grid.index_of(
            c1.units[k].position,
        ) == i) by {
        if c1.grid.occupancy[i] is Some {
            let uid = c1.grid.occupancy[i]->0;
            if i == c.grid.index_of(pos) {
                assert(c1.units[c.units.len() as int].id == id);
                assert(c1.grid.index_of(c1.units[c.units.len() as int].position) == i);
            } else {
                assert(c.grid.occupancy[i] == c1.grid.occupancy[i]);
                let k = choose|k: int|
                    0 <= k < c.units.len() && (#[trigger] c.units[k]).id == uid
                        && c.grid.index_of(c.units[k].position) == i;
                assert(c1.units[k] == c.units[k]);
            }
        }
    }
    assert(unit_ids(c1.units) =~= unit_ids(c.units).push(id));
    assert forall|i: int| 0 <= i < c1.queue.len() implies unit_ids(c1.units).contains(
        #[trigger] c1.queue[i],
    ) by {
        assert(unit_ids(c.units).contains(c.queue[i]));
        let k = choose|k: int|
            0 <= k < unit_ids(c.units).len() && #[trigger] unit_ids(c.units)[k] == c.queue[i];
        assert(unit_ids(c1.units)[k] == c.queue[i]);
    }
}

/// A validated move keeps the core well formed.
pub proof fn lemma_move_wf(c: GameCoreView, unit_id: UnitId, pv: PathView)
    requires
        core_wf(c),
        crate::turn::find_unit(c.units, unit_id) >= 0,
        pv.start == c.units[crate::turn::find_unit(c.units, unit_id)].position,
        path_ok(c.grid, pv.start, pv.steps),
        pv.end == path_dest(pv.start, pv.steps),
        c.grid.occupant(pv.end) is None || pv.end == pv.start,
    ensures
        core_wf(apply_change(c, ChangeView::Move { unit_id, path: pv })),
{
    let c1 = apply_change(c, ChangeView::Move { unit_id, path: pv });
    let iu = crate::turn::find_unit(c.units, unit_id);
    crate::turn::lemma_find_unit(c.units, unit_id);
    let u = c.units[iu];
    assert(u.id == unit_id);
    lemma_path_dest_bounds(c.grid, pv.start, pv.steps);
    crate::grid::lemma_index_in_range(c.grid, pv.start);
    crate::grid::lemma_index_in_range(c.grid, pv.end);
    assert(crate::turn::ids_distinct(c1.units)) by {
        assert forall|i: int, j: int| 0 <= i < j < c1.units.len() implies c1.units[i].id
            != c1.units[j].id by {
            assert(c1.units[i].id == c.units[i].id);
            assert(c1.units[j].id == c.units[j].id);
        }
    }
    assert forall|k: int| 0 <= k < c1.units.len() implies {
        &&& c1.grid.in_bounds((#[trigger] c1.units[k]).position)
        &&& c1.grid.occupant(c1.units[k].position) == Some(c1.units[k].id)
        &&& c1.units[k].health >= 1
    } by {
        if k == iu {
            assert(c1.units[k].position == pv.end);
            assert(c1.grid.occupant(pv.end) == Some(unit_id));
        } else {
            assert(c1.units[k] == c.units[k]);
            crate::grid::lemma_index_in_range(c.grid, c.units[k].position);
            if c.grid.index_of(c.units[k].position) == c.grid.index_of(pv.start) {
                assert(c.grid.occupant(c.units[k].position) == c.grid.occupant(pv.start));
                assert(c.grid.occupant(pv.start) == Some(unit_id));
                assert(false);
            }
            if c.grid.index_of(c.units[k].position) == c.grid.index_of(pv.end) {
                if pv.end == pv.start {
                    assert(false);
                } else {
                    assert(c.grid.occupant(c.units[k].position) == c.grid.occupant(pv.end));
                    assert(false);
                }
            }
        }
    }
    assert forall|i: int|
        0 <= i < c1.grid.occupancy.len() implies ((#[trigger] c1.grid.occupancy[i]) matches Some(
        uid,
    ) ==> exists|k: int|
        0 <= k < c1.units.len() && (#[trigger] c1.units[k]).id == uid && c1.grid.index_of(
            c1.units[k].position,
        ) == i) by {
        if c1.grid.occupancy[i] is Some {
            let uid = c1.grid.occupancy[i]->0;
            if i == c.grid.index_of(pv.end) {
                assert(c1.units[iu].id == unit_id);
                assert(c1.grid.index_of(c1.units[iu].position) == i);
            } else {
                assert(i != c.grid.index_of(pv.start));
                assert(c.grid.occupancy[i] == c1.grid.occupancy[i]);
                let k = choose|k: int|
                    0 <= k < c.units.len() && (#[trigger] c.units[k]).id == uid
                        && c.grid.index_of(c.units[k].position) == i;
                if k == iu {
                    assert(c.grid.index_of(c.units[iu].position) == c.grid.index_of(pv.start));
                    assert(false);
                }
                assert(c1.units[k] == c.units[k]);
            }
        }
    }
    assert(unit_ids(c1.units) =~= unit_ids(c.units));
    assert(c1.queue == c.queue);
}

/// A core whose units keep their ids, positions and health — and whose
/// queue and phase still name live units, each at most once — stays well
/// formed.
proof fn lemma_wf_units_similar(c: GameCoreView, c1: GameCoreView)
    requires
        core_wf(c),
        c1.grid == c.grid,
        c1.units.len() == c.units.len(),
        forall|k: int|
            0 <= k < c.units.len() ==> (#[trigger] c1.units[k]).id == c.units[k].id
                && c1.units[k].position == c.units[k].position && (c1.units[k].health
                == c.units[k].health || c1.units[k].health >= 1),
        c1.queue.no_duplicates(),
        forall|i: int|
            0 <= i < c1.queue.len() ==> unit_ids(c1.units).contains(#[trigger] c1.queue[i]),
    ensures
        core_wf(c1),
{
    assert(crate::turn::ids_distinct(c1.units));
    assert forall|i: int|
        0 <= i < c1.grid.occupancy.len() implies ((#[trigger] c1.grid.occupancy[i]) matches Some(
        uid,
    ) ==> exists|k: int|
        0 <= k < c1.units.len() && (#[trigger] c1.units[k]).id == uid && c1.grid.index_of(
            c1.units[k].position,
        ) == i) by {
        if c1.grid.occupancy[i] is Some {
            let uid = c1.grid.occupancy[i]->0;
            let k = choose|k: int|
                0 <= k < c.units.len() && (#[trigger] c.units[k]).id == uid && c.grid.index_of(
                    c.units[k].position,
                ) == i;
            assert(c1.units[k].id == uid && c1.grid.index_of(c1.units[k].position) == i);
        }
    }
}

/// Ending a turn keeps the core well formed.
pub proof fn lemma_end_turn_wf(c: GameCoreView)
    requires
        core_wf(c),
    ensures
        core_wf(end_turn_spec(c)),
{
    let c1 = end_turn_spec(c);
    if c.turn_number == u32::MAX {
    } else {
        match c.phase {
            RoundPhase::SpawnPhase => {
                let q = queue_of(c.units);
                if q.len() == 0 {
                } else {
                    crate::turn::lemma_queue_of_round_order(c.units);
                    assert(q.contains(q[0]));
                    crate::turn::lemma_find_unit(c.units, q[0]);
                    assert(unit_ids(refresh_in(c.units, q[0])) =~= unit_ids(c.units));
                    assert(c1.queue.no_duplicates()) by {
                        assert forall|i: int, j: int| 0 <= i < j < c1.queue.len() implies c1.queue[i]
                            != c1.queue[j] by {
                            assert(c1.queue[i] == q[i + 1] && c1.queue[j] == q[j + 1]);
                        }
                    }
                    assert forall|i: int| 0 <= i < c1.queue.len() implies unit_ids(
                        c1.units,
                    ).contains(#[trigger] c1.queue[i]) by {
                        assert(c1.queue[i] == q[i + 1]);
                        assert(q.contains(q[i + 1]));
                    }
                    assert(q.contains(q[0]));
                    lemma_wf_units_similar(c, c1);
                }
            },
            RoundPhase::UnitTurn { .. } => {
                if c.queue.len() > 0 {
                    assert(unit_ids(c.units).contains(c.queue[0]));
                    crate::turn::lemma_find_unit(c.units, c.queue[0]);
                    assert(unit_ids(refresh_in(c.units, c.queue[0])) =~= unit_ids(c.units));
                    assert(c1.queue.no_duplicates()) by {
                        assert forall|i: int, j: int| 0 <= i < j < c1.queue.len() implies c1.queue[i]
                            != c1.queue[j] by {
                            assert(c1.queue[i] == c.queue[i + 1] && c1.queue[j] == c.queue[j + 1]);
                        }
                    }
                    assert forall|i: int| 0 <= i < c1.queue.len() implies unit_ids(
                        c1.units,
                    ).contains(#[trigger] c1.queue[i]) by {
                        assert(c1.queue[i] == c.queue[i + 1]);
                    }
                    lemma_wf_units_similar(c, c1);
                } else if c.round_number == u32::MAX {
                } else {
                    lemma_wf_units_similar(c, c1);
                }
            },
        }
    }
}

impl Game {
    /// Set up a game: the given participants around an empty board, at round
    /// one, in the spawn phase.
    pub fn new(players: Vec<Player>, grid: Grid) -> (g: Game)
        requires
            grid@.wf(),
            forall|i: int| 0 <= i < grid@.occupancy.len() ==> grid@.occupancy[i] is None,
        ensures
            g@.players == players@.map_values(|p: Player| p@),
            g@.core == (GameCoreView {
                units: Seq::<UnitView>::empty(),
                grid: grid@,
                queue: Seq::<UnitId>::empty(),
                round_number: 1u32,
                turn_number: 1u32,
                phase: RoundPhase::SpawnPhase,
            }),
            g@.curr_turn == (TurnView {
                turn_number: 1u32,
                phase: RoundPhase::SpawnPhase,
                changes: Seq::<ChangeView>::empty(),
            }),
            g@.history == Seq::<TurnView>::empty(),
            g@.snapshots == Seq::<SnapshotView>::empty(),
            g@.attacks == Seq::<(AttackId, AttackDefinition)>::empty(),
            core_wf(g@.core),
    {
        let g = Game {
            players,
            units: Vec::new(),
            grid,
            queue: UnitQueue::empty(),
            round_number: 1,
            turn_number: 1,
            curr_turn: Turn::new(1, RoundPhase::SpawnPhase),
            history: Vec::new(),
            snapshots: Vec::new(),
            attacks: Vec::new(),
        };
        proof {
            assert(g@.core =~= GameCoreView {
                units: Seq::<UnitView>::empty(),
                grid: g.grid@,
                queue: Seq::<UnitId>::empty(),
                round_number: 1u32,
                turn_number: 1u32,
                phase: RoundPhase::SpawnPhase,
            });
            assert(g@.history =~= Seq::<TurnView>::empty());
            assert(g@.snapshots =~= Seq::<SnapshotView>::empty());
            assert(unit_ids(g@.core.units).len() == 0);
        }
        g
    }

    /// Register one entry of the read-only attack content table.
    pub fn register_attack(&mut self, id: AttackId, def: AttackDefinition)
        ensures
            final(self)@ == (GameView { attacks: old(self)@.attacks.push((id, def)), ..old(self)@ }),
    {
        self.attacks.push((id, def));
        proof {
            assert(final(self)@ =~= GameView {
                attacks: old(self)@.attacks.push((id, def)),
                ..old(self)@
            });
        }
    }

    /// The live units, as copies.
    pub fn units_iter(&self) -> (r: Vec<Unit>)
        ensures
            crate::turn::views_of(r@) == self@.core.units,
    {
        let mut r: Vec<Unit> = Vec::new();
        let mut i: usize = 0;
        while i < self.units.len()
            invariant
                i <= self.units@.len(),
                crate::turn::views_of(r@) =~= self@.core.units.subrange(0, i as int),
                self@.core.units == self.units@.map_values(|u: Unit| u@),
            decreases self.units@.len() - i,
        {
            r.push(self.units[i].duplicate());
            proof {
                assert(self@.core.units.subrange(0, i + 1) =~= self@.core.units.subrange(
                    0,
                    i as int,
                ).push(self.units@[i as int]@));
                assert(crate::turn::views_of(r@) =~= self@.core.units.subrange(0, i + 1));
            }
            i = i + 1;
        }
        proof {
            assert(self@.core.units.subrange(0, self@.core.units.len() as int) =~= self@.core.units);
        }
        r
    }

    /// The unit carrying the given id, if it is alive.
    pub fn get_unit(&self, unit_id: UnitId) -> (r: Option<&Unit>)
        ensures
            match r {
                Some(u) => crate::turn::find_unit(self@.core.units, unit_id) >= 0 && u@
                    == self@.core.units[crate::turn::find_unit(self@.core.units, unit_id)],
                None => !unit_ids(self@.core.units).contains(unit_id),
            },
    {
        let ghost vs = self@.core.units;
        let mut i: usize = 0;
        while i < self.units.len()
            invariant
                i <= vs.len(),
                vs == self.units@.map_values(|u: Unit| u@),
                forall|l: int| 0 <= l < i ==> vs[l].id != unit_id,
            decreases vs.len() - i,
        {
            if self.units[i].id.0 == unit_id.0 {
                proof {
                    assert(vs[i as int] == self.units@[i as int]@);
                    assert(vs[i as int].id == unit_id);
                    assert(unit_ids(vs)[i as int] == unit_id);
                    crate::turn::lemma_find_unit(vs, unit_id);
                }
                return Some(&self.units[i]);
            }
            i = i + 1;
        }
        proof {
            crate::turn::lemma_find_unit(vs, unit_id);
            if unit_ids(vs).contains(unit_id) {
                assert(vs[crate::turn::find_unit(vs, unit_id)].id == unit_id);
                assert(false);
            }
        }
        None
    }

    /// The roster index of the unit carrying the given id.
    fn find_index(&self, unit_id: UnitId) -> (r: Option<usize>)
        ensures
            match r {
                Some(i) => 0 <= i < self@.core.units.len() && i as int == crate::turn::find_unit(
                    self@.core.units,
                    unit_id,
                ),
                None => crate::turn::find_unit(self@.core.units, unit_id) < 0 && !unit_ids(
                    self@.core.units,
                ).contains(unit_id),
            },
    {
        let ghost vs = self@.core.units;
        let mut i: usize = 0;
        while i < self.units.len()
            invariant
                i <= vs.len(),
                vs == self.units@.map_values(|u: Unit| u@),
                forall|l: int| 0 <= l < i ==> vs[l].id != unit_id,
            decreases vs.len() - i,
        {
            if self.units[i].id.0 == unit_id.0 {
                proof {
                    assert(vs[i as int] == self.units@[i as int]@);
                    assert(vs[i as int].id == unit_id);
                    assert(unit_ids(vs)[i as int] == unit_id);
                    crate::turn::lemma_find_unit(vs, unit_id);
                }
                return Some(i);
            }
            i = i + 1;
        }
        proof {
            crate::turn::lemma_find_unit(vs, unit_id);
            if unit_ids(vs).contains(unit_id) {
                assert(vs[crate::turn::find_unit(vs, unit_id)].id == unit_id);
                assert(false);
            }
        }
        None
    }

    /// The id the next spawned unit will carry, while the id space lasts.
    pub fn next_unit_id(&self) -> (r: Option<UnitId>)
        ensures
            match r {
                Some(id) => next_id(self@.core.units) <= u32::MAX && id.0 == next_id(
                    self@.core.units,
                ),
                None => next_id(self@.core.units) > u32::MAX,
            },
    {
        let ghost vs = self@.core.units;
        let mut m: i64 = -1;
        let mut i: usize = 0;
        while i < self.units.len()
            invariant
                i <= vs.len(),
                vs == self.units@.map_values(|u: Unit| u@),
                m == max_id(vs.subrange(0, i as int)),
            decreases vs.len() - i,
        {
            proof {
                assert(vs.subrange(0, i + 1).drop_last() =~= vs.subrange(0, i as int));
                assert(vs.subrange(0, i + 1).last() == vs[i as int]);
                assert(vs[i as int] == self.units@[i as int]@);
            }
            if m < self.units[i].id.0 as i64 {
                m = self.units[i].id.0 as i64;
            }
            i = i + 1;
        }
        proof {
            assert(vs.subrange(0, vs.len() as int) =~= vs);
        }
        if m < u32::MAX as i64 {
            Some(UnitId((m + 1) as u32))
        } else {
            None
        }
    }

    /// Bring a new unit of the given class into play for `owner` at `pos`:
    /// the next id is allocated, the unit joins the roster, the cell records
    /// it, and the spawn is logged.
    pub fn spawn_unit(&mut self, unit_class: UnitClassId, pos: Position, owner: PlayerId)
        requires
            core_wf(old(self)@.core),
            old(self)@.core.grid.in_bounds(pos),
            old(self)@.core.grid.occupant(pos) is None,
            next_id(old(self)@.core.units) <= u32::MAX,
        ensures
            final(self)@ == (GameView {
                core: apply_change(
                    old(self)@.core,
                    ChangeView::Spawn { unit: unit_class, owner, position: pos },
                ),
                curr_turn: TurnView {
                    changes: old(self)@.curr_turn.changes.push(
                        ChangeView::Spawn { unit: unit_class, owner, position: pos },
                    ),
                    ..old(self)@.curr_turn
                },
                ..old(self)@
            }),
            core_wf(final(self)@.core),
    {
        let ghost c0 = self@.core;
        let id = match self.next_unit_id() {
            Some(id) => id,
            None => {
                proof {
                    assert(false);
                }
                UnitId(0)
            },
        };
        let new_unit = Unit::new(unit_class, owner, pos, id);
        self.units.push(new_unit);
        self.grid.set_occupancy(pos, Some(id));
        self.curr_turn.log_change(
            ResolvedChange::Spawn { unit: unit_class, owner, position: pos },
        );
        proof {
            let c1 = final(self)@.core;
            let ch = ChangeView::Spawn { unit: unit_class, owner, position: pos };
            assert(c1.units =~= c0.units.push(new_unit@));
            assert(c1 =~= apply_change(c0, ch));
            assert(final(self)@ =~= GameView {
                core: apply_change(c0, ch),
                curr_turn: TurnView {
                    changes: old(self)@.curr_turn.changes.push(ch),
                    ..old(self)@.curr_turn
                },
                ..old(self)@
            });
            lemma_spawn_wf(c0, unit_class, owner, pos);
        }
    }

    /// Carry out a validated move: the unit's stored position and the grid's
    /// occupancy change together, and the move is logged.
    pub fn move_unit(&mut self, unit_id: UnitId, path: Path)
        requires
            core_wf(old(self)@.core),
            crate::turn::find_unit(old(self)@.core.units, unit_id) >= 0,
            path@.start == old(self)@.core.units[crate::turn::find_unit(
                old(self)@.core.units,
                unit_id,
            )].position,
            path_ok(old(self)@.core.grid, path@.start, path@.steps),
            path@.end == path_dest(path@.start, path@.steps),
            old(self)@.core.grid.occupant(path@.end) is None || path@.end == path@.start,
        ensures
            final(self)@ == (GameView {
                core: apply_change(
                    old(self)@.core,
                    ChangeView::Move { unit_id, path: path@ },
                ),
                curr_turn: TurnView {
                    changes: old(self)@.curr_turn.changes.push(
                        ChangeView::Move { unit_id, path: path@ },
                    ),
                    ..old(self)@.curr_turn
                },
                ..old(self)@
            }),
            core_wf(final(self)@.core),
    {
        let ghost c0 = self@.core;
        let ghost pv = path@;
        proof {
            let iu = crate::turn::find_unit(c0.units, unit_id);
            crate::turn::lemma_find_unit(c0.units, unit_id);
            assert(c0.grid.in_bounds(c0.units[iu].position));
            lemma_path_dest_bounds(c0.grid, pv.start, pv.steps);
        }
        let i = match self.find_index(unit_id) {
            Some(i) => i,
            None => {
                proof {
                    assert(false);
                }
                0
            },
        };
        let end = path.end();
        let start = path.start();
        let u = vstd::std_specs::vec::vec_index_mut(&mut self.units, i);
        u.change_pos(end);
        let _spent = u.spend_action(ActionKind::Move);
        self.grid.move_occupancy(start, end);
        self.curr_turn.log_change(ResolvedChange::Move { unit_id, path });
        proof {
            let ch = ChangeView::Move { unit_id, path: pv };
            let iu = crate::turn::find_unit(c0.units, unit_id);
            crate::turn::lemma_find_unit(c0.units, unit_id);
            assert(c0.units[iu].id == unit_id);
            assert(c0.grid.occupant(pv.start) == Some(unit_id));
            assert(final(self)@.core.units =~= c0.units.update(
                iu,
                UnitView {
                    position: pv.end,
                    actions: spend(c0.units[iu].actions, ActionKind::Move),
                    ..c0.units[iu]
                },
            ));
            assert(final(self)@.core =~~= apply_change(c0, ch));
            assert(final(self)@ =~~= GameView {
                core: apply_change(c0, ch),
                curr_turn: TurnView {
                    changes: old(self)@.curr_turn.changes.push(ch),
                    ..old(self)@.curr_turn
                },
                ..old(self)@
            });
            lemma_move_wf(c0, unit_id, pv);
        }
    }

    /// Capture a full, independently restorable copy of the present state
    /// and append it to the snapshot store.
    pub fn snapshot_round(&mut self)
        ensures
            final(self)@ == (GameView {
                snapshots: old(self)@.snapshots.push(
                    SnapshotView { players: old(self)@.players, core: old(self)@.core },
                ),
                ..old(self)@
            }),
    {
        let mut players: Vec<Player> = Vec::new();
        let mut i: usize = 0;
        while i < self.players.len()
            invariant
                i <= self.players@.len(),
                players@.map_values(|p: Player| p@) =~= self.players@.map_values(
                    |p: Player| p@,
                ).subrange(0, i as int),
            decreases self.players@.len() - i,
        {
            players.push(self.players[i].duplicate());
            proof {
                let whole = self.players@.map_values(|p: Player| p@);
                assert(whole.subrange(0, i + 1) =~= whole.subrange(0, i as int).push(
                    whole[i as int],
                ));
                assert(players@.map_values(|p: Player| p@) =~= whole.subrange(0, i + 1));
            }
            i = i + 1;
        }
        proof {
            let whole = self.players@.map_values(|p: Player| p@);
            assert(whole.subrange(0, whole.len() as int) =~= whole);
        }
        let units = self.units_iter();
        let snap = RoundSnapshot {
            players,
            units,
            grid: self.grid.duplicate(),
            queue: self.queue.duplicate(),
            round_number: self.round_number,
            turn_number: self.turn_number,
            phase: self.curr_turn.phase,
        };
        proof {
            assert(snap@ =~~= SnapshotView { players: self@.players, core: self@.core });
        }
        self.snapshots.push(snap);
        proof {
            assert(final(self)@ =~~= GameView {
                snapshots: old(self)@.snapshots.push(
                    SnapshotView { players: old(self)@.players, core: old(self)@.core },
                ),
                ..old(self)@
            });
        }
    }

    /// Close the running turn: log its end, move it into history, advance
    /// the turn counter, and perform the phase transition — building the
    /// round's queue after a spawn phase, handing the turn to the next
    /// queued unit, or closing the round (with a snapshot) when the queue
    /// is drained.
    pub fn commit_turn(&mut self)
        requires
            core_wf(old(self)@.core),
            old(self)@.core.turn_number < u32::MAX,
            old(self)@.core.round_number < u32::MAX,
            old(self)@.core.phase is SpawnPhase ==> old(self)@.core.units.len() > 0,
        ensures
            final(self)@.core == end_turn_spec(old(self)@.core),
            core_wf(final(self)@.core),
            final(self)@.players == old(self)@.players,
            final(self)@.attacks == old(self)@.attacks,
            final(self)@.history == old(self)@.history.push(
                TurnView {
                    changes: old(self)@.curr_turn.changes.push(ChangeView::EndTurn),
                    ..old(self)@.curr_turn
                },
            ),
            final(self)@.curr_turn == (TurnView {
                turn_number: final(self)@.core.turn_number,
                phase: final(self)@.core.phase,
                changes: Seq::<ChangeView>::empty(),
            }),
            final(self)@.snapshots == if old(self)@.core.phase is UnitTurn && old(
                self,
            )@.core.queue.len() == 0 {
                old(self)@.snapshots.push(
                    SnapshotView { players: old(self)@.players, core: final(self)@.core },
                )
            } else {
                old(self)@.snapshots
            },
    {
        let ghost c0 = self@.core;
        proof {
            lemma_end_turn_wf(c0);
        }
        self.curr_turn.log_change(ResolvedChange::EndTurn);
        let next_number = self.turn_number + 1;
        let mut old_turn = Turn::new(next_number, RoundPhase::SpawnPhase);
        core::mem::swap(&mut old_turn, &mut self.curr_turn);
        let finished_phase = old_turn.phase;
        self.history.push(old_turn);
        self.turn_number = next_number;
        match finished_phase {
            RoundPhase::SpawnPhase => {
                proof {
                    crate::turn::lemma_queue_of_round_order(c0.units);
                }
                self.queue.reset_from_game(self.units.as_slice());
                let first = match self.queue.next_unit() {
                    Some(u) => u,
                    None => {
                        proof {
                            assert(false);
                        }
                        UnitId(0)
                    },
                };
                proof {
                    assert(queue_of(c0.units).contains(first));
                    crate::turn::lemma_find_unit(c0.units, first);
                }
                match self.find_index(first) {
                    Some(i) => {
                        let u = vstd::std_specs::vec::vec_index_mut(&mut self.units, i);
                        u.refresh_budget();
                    },
                    None => {
                        proof {
                            assert(false);
                        }
                    },
                }
                self.curr_turn.phase = RoundPhase::UnitTurn { unit: first };
                proof {
                    assert(final(self)@.core.units =~= refresh_in(c0.units, first));
                    assert(final(self)@.core =~~= end_turn_spec(c0));
                }
            },
            RoundPhase::UnitTurn { .. } => {
                match self.queue.next_unit() {
                    Some(next) => {
                        proof {
                            crate::turn::lemma_find_unit(c0.units, next);
                        }
                        match self.find_index(next) {
                            Some(i) => {
                                let u = vstd::std_specs::vec::vec_index_mut(&mut self.units, i);
                                u.refresh_budget();
                            },
                            None => {
                                proof {
                                    assert(false);
                                }
                            },
                        }
                        self.curr_turn.phase = RoundPhase::UnitTurn { unit: next };
                        proof {
                            assert(final(self)@.core.units =~= refresh_in(c0.units, next));
                            assert(final(self)@.core =~~= end_turn_spec(c0));
                        }
                    },
                    None => {
                        self.round_number = self.round_number + 1;
                        self.curr_turn.phase = RoundPhase::SpawnPhase;
                        proof {
                            assert(self@.core =~~= end_turn_spec(c0));
                        }
                        self.snapshot_round();
                    },
                }
            },
        }
        proof {
            assert(final(self)@.history =~= old(self)@.history.push(
                TurnView {
                    changes: old(self)@.curr_turn.changes.push(ChangeView::EndTurn),
                    ..old(self)@.curr_turn
                },
            ));
            assert(final(self)@.curr_turn =~~= TurnView {
                turn_number: final(self)@.core.turn_number,
                phase: final(self)@.core.phase,
                changes: Seq::<ChangeView>::empty(),
            });
        }
    }

    /// Rebuild a game from a snapshot: the captured participants and core,
    /// a fresh running turn, and empty history, snapshot and content
    /// tables.
    pub fn restore(snap: &RoundSnapshot) -> (g: Game)
        ensures
            g@.players == snap@.players,
            g@.core == snap@.core,
            g@.curr_turn == (TurnView {
                turn_number: snap@.core.turn_number,
                phase: snap@.core.phase,
                changes: Seq::<ChangeView>::empty(),
            }),
            g@.history == Seq::<TurnView>::empty(),
            g@.snapshots == Seq::<SnapshotView>::empty(),
            g@.attacks == Seq::<(AttackId, AttackDefinition)>::empty(),
            core_wf(snap@.core) ==> core_wf(g@.core),
    {
        let mut players: Vec<Player> = Vec::new();
        let mut i: usize = 0;
        while i < snap.players.len()
            invariant
                i <= snap.players@.len(),
                players@.map_values(|p: Player| p@) =~= snap.players@.map_values(
                    |p: Player| p@,
                ).subrange(0, i as int),
            decreases snap.players@.len() - i,
        {
            players.push(snap.players[i].duplicate());
            proof {
                let whole = snap.players@.map_values(|p: Player| p@);
                assert(whole.subrange(0, i + 1) =~= whole.subrange(0, i as int).push(
                    whole[i as int],
                ));
                assert(players@.map_values(|p: Player| p@) =~= whole.subrange(0, i + 1));
            }
            i = i + 1;
        }
        let mut units: Vec<Unit> = Vec::new();
        let mut i: usize = 0;
        while i < snap.units.len()
            invariant
                i <= snap.units@.len(),
                crate::turn::views_of(units@) =~= snap.units@.map_values(|u: Unit| u@).subrange(
                    0,
                    i as int,
                ),
            decreases snap.units@.len() - i,
        {
            units.push(snap.units[i].duplicate());
            proof {
                let whole = snap.units@.map_values(|u: Unit| u@);
                assert(whole.subrange(0, i + 1) =~= whole.subrange(0, i as int).push(
                    whole[i as int],
                ));
                assert(crate::turn::views_of(units@) =~= whole.subrange(0, i + 1));
            }
            i = i + 1;
        }
        let g = Game {
            players,
            units,
            grid: snap.grid.duplicate(),
            queue: snap.queue.duplicate(),
            round_number: snap.round_number,
            turn_number: snap.turn_number,
            curr_turn: Turn::new(snap.turn_number, snap.phase),
            history: Vec::new(),
            snapshots: Vec::new(),
            attacks: Vec::new(),
        };
        proof {
            let pwhole = snap.players@.map_values(|p: Player| p@);
            assert(pwhole.subrange(0, pwhole.len() as int) =~= pwhole);
            let uwhole = snap.units@.map_values(|u: Unit| u@);
            assert(uwhole.subrange(0, uwhole.len() as int) =~= uwhole);
            assert(g@.players =~= snap@.players);
            assert(g@.core =~~= snap@.core);
            assert(g@.history =~= Seq::<TurnView>::empty());
            assert(g@.snapshots =~= Seq::<SnapshotView>::empty());
        }
        g
    }

    /// Re-apply a resolved move or spawn taken from a change log, as when
    /// replaying history onto a restored snapshot.
    pub fn apply_resolution(&mut self, change: ResolvedChange)
        requires
            core_wf(old(self)@.core),
            change matches ResolvedChange::Move { unit_id, path } ==> {
                let i = crate::turn::find_unit(old(self)@.core.units, unit_id);
                &&& i >= 0
                &&& path@.start == old(self)@.core.units[i].position
                &&& path_ok(old(self)@.core.grid, path@.start, path@.steps)
                &&& path@.end == path_dest(path@.start, path@.steps)
                &&& (old(self)@.core.grid.occupant(path@.end) is None || path@.end == path@.start)
            },
            change matches ResolvedChange::Spawn { position, .. } ==> {
                &&& old(self)@.core.grid.in_bounds(position)
                &&& old(self)@.core.grid.occupant(position) is None
                &&& next_id(old(self)@.core.units) <= u32::MAX
            },
            change is Move || change is Spawn,
        ensures
            final(self)@ == (GameView {
                core: apply_change(old(self)@.core, change@),
                curr_turn: TurnView {
                    changes: old(self)@.curr_turn.changes.push(change@),
                    ..old(self)@.curr_turn
                },
                ..old(self)@
            }),
            core_wf(final(self)@.core),
    {
        match change {
            ResolvedChange::Move { unit_id, path } => {
                self.move_unit(unit_id, path);
            },
            ResolvedChange::Spawn { unit, owner, position } => {
                self.spawn_unit(unit, position, owner);
            },
            _ => {
                proof {
                    assert(false);
                }
            },
        }
    }

    /// The current round number.
    pub fn round_number(&self) -> (r: u32)
        ensures
            r == self@.core.round_number,
    {
        self.round_number
    }

    /// The current turn number.
    pub fn turn_number(&self) -> (r: u32)
        ensures
            r == self@.core.turn_number,
    {
        self.turn_number
    }

    /// The current phase.
    pub fn phase(&self) -> (r: RoundPhase)
        ensures
            r == self@.core.phase,
    {
        self.curr_turn.phase
    }

    /// The remaining turn order of the current round.
    pub fn queue_remaining(&self) -> (r: Vec<UnitId>)
        ensures
            r@ == self@.core.queue,
    {
        self.queue.remaining()
    }

    /// The board's width, for observers.
    pub fn grid_width(&self) -> (r: usize)
        ensures
            r == self@.core.grid.width,
    {
        self.grid.width()
    }

    /// The board's height, for observers.
    pub fn grid_height(&self) -> (r: usize)
        ensures
            r == self@.core.grid.height,
    {
        self.grid.height()
    }

    /// The occupant of an in-bounds cell, for observers.
    pub fn grid_occupant(&self, pos: Position) -> (r: Option<UnitId>)
        requires
            self@.core.grid.wf(),
            self@.core.grid.in_bounds(pos),
        ensures
            r == self@.core.grid.occupant(pos),
    {
        self.grid.occupant_at(pos)
    }

    /// The terrain of a cell, for observers.
    pub fn grid_terrain(&self, pos: Position) -> (r: Option<&crate::terrain::TerrainType>)
        requires
            self@.core.grid.wf(),
        ensures
            match r {
                Some(t) => self@.core.grid.in_bounds(pos) && *t == self@.core.grid.terrain_at(pos),
                None => !self@.core.grid.in_bounds(pos),
            },
    {
        self.grid.get_terrain_type(pos)
    }

    /// How many snapshots the store holds.
    pub fn snapshot_count(&self) -> (r: usize)
        ensures
            r == self@.snapshots.len(),
    {
        self.snapshots.len()
    }

    /// The most recent snapshot.
    pub fn latest_snapshot(&self) -> (r: Option<&RoundSnapshot>)
        ensures
            match r {
                Some(s) => self@.snapshots.len() > 0 && s@ == self@.snapshots.last(),
                None => self@.snapshots.len() == 0,
            },
    {
        if self.snapshots.len() > 0 {
            Some(&self.snapshots[self.snapshots.len() - 1])
        } else {
            None
        }
    }

    /// How many turns have been committed to history.
    pub fn history_len(&self) -> (r: usize)
        ensures
            r == self@.history.len(),
    {
        self.history.len()
    }
}

impl Game {
    /// Whether the submitting player is a known participant.
    fn player_known_exec(&self, p: PlayerId) -> (r: bool)
        ensures
            r == player_known(self@, p),
    {
        let ghost ps = self@.players;
        let mut i: usize = 0;
        while i < self.players.len()
            invariant
                i <= ps.len(),
                ps == self.players@.map_values(|q: Player| q@),
                forall|l: int| 0 <= l < i ==> (#[trigger] ps[l]).id != p,
            decreases ps.len() - i,
        {
            if self.players[i].id.0 == p.0 {
                proof {
                    assert(ps[i as int] == self.players@[i as int]@);
                    assert(self@.players[i as int].id == p);
                }
                return true;
            }
            i = i + 1;
        }
        false
    }

    /// Whether the proposal passes the turn-legality check.
    fn check_legality(&self, player_id: PlayerId, action: &ProposedAction) -> (r: bool)
        ensures
            r == action_legal(self@, player_id, action@),
    {
        if !self.player_known_exec(player_id) {
            return false;
        }
        match self.curr_turn.phase {
            RoundPhase::SpawnPhase => {
                match action {
                    ProposedAction::Spawn { .. } => true,
                    ProposedAction::EndTurn => true,
                    _ => false,
                }
            },
            RoundPhase::UnitTurn { unit } => {
                match self.find_index(unit) {
                    Some(i) => {
                        match action {
                            ProposedAction::Spawn { .. } => false,
                            _ => self.units[i].owner.0 == player_id.0,
                        }
                    },
                    None => {
                        match action {
                            ProposedAction::EndTurn => true,
                            _ => false,
                        }
                    },
                }
            },
        }
    }

    /// The table index of the attack definition carrying the given id.
    fn find_attack_index(&self, id: AttackId) -> (r: Option<usize>)
        ensures
            match r {
                Some(i) => 0 <= i < self@.attacks.len() && i as int == find_attack(
                    self@.attacks,
                    id,
                ),
                None => find_attack(self@.attacks, id) < 0,
            },
    {
        let ghost t = self@.attacks;
        let mut i: usize = 0;
        while i < self.attacks.len()
            invariant
                i <= t.len(),
                t == self.attacks@,
                forall|l: int| 0 <= l < i ==> (#[trigger] t[l]).0 != id,
            decreases t.len() - i,
        {
            if self.attacks[i].0.0 == id.0 {
                proof {
                    assert(t[i as int].0 == id);
                    lemma_find_attack(t, id);
                    assert(find_attack(t, id) >= 0);
                    assert(t[find_attack(t, id)].0 == id);
                }
                return Some(i);
            }
            i = i + 1;
        }
        proof {
            lemma_find_attack(t, id);
            if find_attack(t, id) >= 0 {
                assert(t[find_attack(t, id)].0 == id);
                assert(false);
            }
        }
        None
    }

    /// How many live units the player owns.
    fn count_owned_exec(&self, p: PlayerId) -> (r: usize)
        ensures
            r == count_owned(self@.core.units, p),
    {
        let ghost vs = self@.core.units;
        let mut n: usize = 0;
        let mut i: usize = 0;
        proof {
            assert(vs.subrange(0, vs.len() as int) =~= vs);
        }
        while i < self.units.len()
            invariant
                i <= vs.len(),
                vs == self.units@.map_values(|u: Unit| u@),
                n <= i,
                count_owned(vs, p) == n + count_owned(
                    vs.subrange(i as int, vs.len() as int),
                    p,
                ),
            decreases vs.len() - i,
        {
            let ghost rest = vs.subrange(i as int, vs.len() as int);
            proof {
                assert(rest[0] == vs[i as int]);
                assert(rest.drop_first() =~= vs.subrange(i + 1, vs.len() as int));
                lemma_count_owned_bounds(vs.subrange(i + 1, vs.len() as int), p);
                lemma_count_owned_bounds(vs, p);
            }
            if self.units[i].owner.0 == p.0 {
                n = n + 1;
            }
            i = i + 1;
        }
        proof {
            assert(vs.subrange(vs.len() as int, vs.len() as int) =~= Seq::<UnitView>::empty());
        }
        n
    }

    /// The aim keys of every unit an attack strikes, in roster order.
    fn collect_aim_keys(
        &self,
        def: &AttackDefinition,
        apos: Position,
        aowner: PlayerId,
        tpos: Position,
    ) -> (r: Vec<(u32, u32)>)
        requires
            core_wf(self@.core),
            self@.core.grid.in_bounds(apos),
            self@.core.grid.in_bounds(tpos),
        ensures
            r@ == aim_keys(self@.core.units, *def, apos, aowner, tpos),
    {
        let ghost vs = self@.core.units;
        let ghost pred = hit_pred(*def, apos, aowner, tpos);
        let mut r: Vec<(u32, u32)> = Vec::new();
        proof {
            reveal(Seq::filter);
            assert(vs.subrange(0, 0) =~= Seq::<UnitView>::empty());
            assert(Seq::<UnitView>::empty().filter(pred) =~= Seq::<UnitView>::empty());
            assert(r@ =~= aim_keys(vs.subrange(0, 0), *def, apos, aowner, tpos));
        }
        let mut i: usize = 0;
        while i < self.units.len()
            invariant
                core_wf(self@.core),
                self@.core.grid.in_bounds(apos),
                self@.core.grid.in_bounds(tpos),
                i <= vs.len(),
                vs == self@.core.units,
                vs == self.units@.map_values(|u: Unit| u@),
                pred == hit_pred(*def, apos, aowner, tpos),
                r@ =~= aim_keys(vs.subrange(0, i as int), *def, apos, aowner, tpos),
            decreases vs.len() - i,
        {
            proof {
                assert(vs[i as int] == self.units@[i as int]@);
                assert(self@.core.grid.in_bounds(vs[i as int].position));
            }
            let upos = self.units[i].position;
            let hit = crate::combat::cell_affected_exec(&def.aoe, &apos, &tpos, &upos)
                && crate::combat::admits(&def.target, aowner, self.units[i].owner);
            if hit {
                let dist = apos.dist(&upos);
                proof {
                    assert(0 <= apos.spec_dist(upos) <= 0x1fffe);
                }
                r.push((dist as u32, self.units[i].id.0));
            }
            proof {
                assert(vs.subrange(0, i + 1) =~= vs.subrange(0, i as int) + seq![vs[i as int]]);
                Seq::<UnitView>::filter_distributes_over_add(
                    vs.subrange(0, i as int),
                    seq![vs[i as int]],
                    pred,
                );
                crate::turn::lemma_filter_singleton(vs[i as int], pred);
                assert(pred(vs[i as int]) == hit);
                if hit {
                    assert(vs.subrange(0, i + 1).filter(pred) =~= vs.subrange(0, i as int).filter(
                        pred,
                    ).push(vs[i as int]));
                    assert(r@ =~= aim_keys(vs.subrange(0, i + 1), *def, apos, aowner, tpos));
                } else {
                    assert(vs.subrange(0, i + 1).filter(pred) =~= vs.subrange(0, i as int).filter(
                        pred,
                    ));
                    assert(r@ =~= aim_keys(vs.subrange(0, i + 1), *def, apos, aowner, tpos));
                }
            }
            i = i + 1;
        }
        proof {
            assert(vs.subrange(0, vs.len() as int) =~= vs);
        }
        r
    }

    /// Apply one realized health delta to the live state.
    fn apply_one_delta(&mut self, id: UnitId, dv: i64)
        requires
            core_wf(old(self)@.core),
            -0x7fff_ffff_ffff <= dv <= 0x7fff_ffff_ffff,
        ensures
            final(self)@ == (GameView { core: apply_delta(old(self)@.core, id, dv), ..old(self)@ }),
            core_wf(final(self)@.core),
    {
        let ghost c0 = self@.core;
        proof {
            lemma_delta_wf(c0, id, dv);
        }
        match self.find_index(id) {
            None => {
                proof {
                    assert(final(self)@ =~~= GameView {
                        core: apply_delta(c0, id, dv),
                        ..old(self)@
                    });
                }
            },
            Some(i) => {
                let h = self.units[i].health;
                if dv >= 0 {
                    let nh = if h as i64 + dv <= u32::MAX as i64 {
                        (h as i64 + dv) as u32
                    } else {
                        u32::MAX
                    };
                    let u = vstd::std_specs::vec::vec_index_mut(&mut self.units, i);
                    u.health = nh;
                    proof {
                        assert(final(self)@.core.units =~= c0.units.update(
                            i as int,
                            UnitView { health: nh, ..c0.units[i as int] },
                        ));
                        assert(final(self)@ =~~= GameView {
                            core: apply_delta(c0, id, dv),
                            ..old(self)@
                        });
                    }
                } else if (h as i64) > -dv {
                    let nh = (h as i64 + dv) as u32;
                    let u = vstd::std_specs::vec::vec_index_mut(&mut self.units, i);
                    u.health = nh;
                    proof {
                        assert(final(self)@.core.units =~= c0.units.update(
                            i as int,
                            UnitView { health: nh, ..c0.units[i as int] },
                        ));
                        assert(final(self)@ =~~= GameView {
                            core: apply_delta(c0, id, dv),
                            ..old(self)@
                        });
                    }
                } else {
                    // The strike is lethal: the unit leaves the roster, its
                    // cell and the remaining queue in the same step.
                    let pos = self.units[i].position;
                    proof {
                        assert(c0.grid.in_bounds(c0.units[i as int].position));
                    }
                    self.units.remove(i);
                    self.grid.set_occupancy(pos, None);
                    self.queue.remove_unit(id);
                    proof {
                        assert(final(self)@.core.units =~= c0.units.remove(i as int));
                        assert(final(self)@ =~~= GameView {
                            core: apply_delta(c0, id, dv),
                            ..old(self)@
                        });
                    }
                }
            },
        }
    }

    /// Resolve a move proposal for the active unit.
    fn do_move(&mut self, player_id: PlayerId, path: Path) -> (r: Result<
        ResolvedChange,
        GameError,
    >)
        requires
            core_wf(old(self)@.core),
            action_legal(old(self)@, player_id, ActionView::Move { path: path@ }),
        ensures
            core_wf(final(self)@.core),
            match r {
                Ok(ch) => proposal_outcome(
                    old(self)@,
                    final(self)@,
                    player_id,
                    ActionView::Move { path: path@ },
                    Ok(ch@),
                ),
                Err(e) => proposal_outcome(
                    old(self)@,
                    final(self)@,
                    player_id,
                    ActionView::Move { path: path@ },
                    Err(e),
                ),
            },
    {
        let ghost g0 = self@;
        let unit = match self.curr_turn.phase {
            RoundPhase::UnitTurn { unit } => unit,
            RoundPhase::SpawnPhase => {
                proof {
                    assert(false);
                }
                UnitId(0)
            },
        };
        let i = match self.find_index(unit) {
            Some(i) => i,
            None => {
                proof {
                    assert(false);
                }
                0
            },
        };
        let upos = self.units[i].position;
        proof {
            assert(g0.core.grid.in_bounds(g0.core.units[i as int].position));
        }
        let (ok, dest, within) = check_path(&self.grid, upos, &path.steps);
        let starts_right = path.start().x() == upos.x() && path.start().y() == upos.y();
        let ends_right = ok && path.end().x() == dest.x() && path.end().y() == dest.y();
        let dest_free = if ok {
            proof {
                lemma_path_dest_bounds(g0.core.grid, upos, path@.steps);
            }
            match self.grid.occupant_at(dest) {
                None => true,
                Some(_) => dest.x() == upos.x() && dest.y() == upos.y(),
            }
        } else {
            false
        };
        if !(starts_right && ok && ends_right && dest_free) {
            return Err(GameError::InvalidPath);
        }
        if !within {
            return Err(GameError::OutOfRange);
        }
        if !self.units[i].has_budget(ActionKind::Move) {
            return Err(GameError::IllegalAction);
        }
        let copy = path.duplicate();
        self.move_unit(unit, path);
        Ok(ResolvedChange::Move { unit_id: unit, path: copy })
    }

    /// Resolve an attack proposal for the active unit.
    fn do_attack(&mut self, player_id: PlayerId, target: UnitId, attack: AttackId) -> (r: Result<
        ResolvedChange,
        GameError,
    >)
        requires
            core_wf(old(self)@.core),
            action_legal(old(self)@, player_id, ActionView::Attack { target, attack }),
        ensures
            core_wf(final(self)@.core),
            match r {
                Ok(ch) => proposal_outcome(
                    old(self)@,
                    final(self)@,
                    player_id,
                    ActionView::Attack { target, attack },
                    Ok(ch@),
                ),
                Err(e) => proposal_outcome(
                    old(self)@,
                    final(self)@,
                    player_id,
                    ActionView::Attack { target, attack },
                    Err(e),
                ),
            },
    {
        let ghost g0 = self@;
        let unit = match self.curr_turn.phase {
            RoundPhase::UnitTurn { unit } => unit,
            RoundPhase::SpawnPhase => {
                proof {
                    assert(false);
                }
                UnitId(0)
            },
        };
        let i = match self.find_index(unit) {
            Some(i) => i,
            None => {
                proof {
                    assert(false);
                }
                0
            },
        };
        let di = match self.find_attack_index(attack) {
            Some(di) => di,
            None => {
                return Err(GameError::IllegalAction);
            },
        };
        let def = self.attacks[di].1;
        let ti = match self.find_index(target) {
            Some(ti) => ti,
            None => {
                return Err(GameError::InvalidUnit);
            },
        };
        let apos = self.units[i].position;
        let aowner = self.units[i].owner;
        let tpos = self.units[ti].position;
        let towner = self.units[ti].owner;
        if !crate::combat::admits(&def.target, aowner, towner) {
            return Err(GameError::IllegalAction);
        }
        proof {
            assert(g0.core.grid.in_bounds(g0.core.units[i as int].position));
            assert(g0.core.grid.in_bounds(g0.core.units[ti as int].position));
        }
        let d = apos.dist(&tpos);
        if !(def.range.inner_radius as i32 <= d && d <= def.range.outer_radius as i32) {
            return Err(GameError::OutOfRange);
        }
        if !self.units[i].has_budget(ActionKind::Attack) {
            return Err(GameError::IllegalAction);
        }
        // Realized targets, computed before any state changes so later
        // deaths cannot disturb filter evaluation.
        let keys = self.collect_aim_keys(&def, apos, aowner, tpos);
        let sorted = sort_aim(&keys);
        proof {
            lemma_aim_le_total();
            aim_keys(g0.core.units, def, apos, aowner, tpos).lemma_sort_by_ensures(aim_le_fn());
            vstd::seq_lib::lemma_sorted_unique(
                sorted@,
                aim_keys(g0.core.units, def, apos, aowner, tpos).sort_by(aim_le_fn()),
                aim_le_fn(),
            );
        }
        let dv = crate::combat::health_delta(&def);
        let mut deltas: Vec<(UnitId, i64)> = Vec::new();
        let mut logged: Vec<(UnitId, i64)> = Vec::new();
        let ghost dseq = attack_deltas(g0.core.units, def, apos, aowner, tpos);
        let mut k: usize = 0;
        while k < sorted.len()
            invariant
                k <= sorted@.len(),
                dv == crate::combat::spec_health_delta(def),
                dseq == sorted@.map_values(
                    |p: (u32, u32)| (UnitId(p.1), crate::combat::spec_health_delta(def) as i64),
                ),
                deltas@ =~= dseq.subrange(0, k as int),
                logged@ =~= dseq.subrange(0, k as int),
            decreases sorted@.len() - k,
        {
            deltas.push((UnitId(sorted[k].1), dv));
            logged.push((UnitId(sorted[k].1), dv));
            proof {
                assert(dseq[k as int] == (UnitId(sorted@[k as int].1),
                crate::combat::spec_health_delta(def) as i64));
                assert(dseq.subrange(0, k + 1) =~= dseq.subrange(0, k as int).push(
                    dseq[k as int],
                ));
            }
            k = k + 1;
        }
        proof {
            assert(dseq.subrange(0, dseq.len() as int) =~= dseq);
            assert(deltas@ == dseq);
            assert(logged@ == dseq);
        }
        let ghost ch = ChangeView::Attack { attacker: unit, target, attack, deltas: dseq };
        // Spend the attacker's point, then land the strikes in aim order.
        let mu = vstd::std_specs::vec::vec_index_mut(&mut self.units, i);
        let _spent = mu.spend_action(ActionKind::Attack);
        let ghost cspent = self@.core;
        proof {
            assert(cspent.units =~= spent_roster(g0.core, unit));
            assert forall|m: int| 0 <= m < cspent.queue.len() implies unit_ids(
                cspent.units,
            ).contains(#[trigger] cspent.queue[m]) by {
                assert(unit_ids(cspent.units) =~= unit_ids(g0.core.units));
            }
            lemma_wf_units_similar(g0.core, cspent);
        }
        proof {
            assert forall|m: int| 0 <= m < dseq.len() implies (#[trigger] dseq[m]).1
                == crate::combat::spec_health_delta(def) as i64 by {
                assert(dseq[m] == (UnitId(sorted@[m].1), crate::combat::spec_health_delta(def) as i64));
            }
        }
        let mut k: usize = 0;
        while k < deltas.len()
            invariant
                k <= deltas@.len(),
                deltas@ == dseq,
                forall|m: int|
                    0 <= m < dseq.len() ==> (#[trigger] dseq[m]).1
                        == crate::combat::spec_health_delta(def) as i64,
                core_wf(self@.core),
                self@.core == apply_deltas(cspent, dseq.subrange(0, k as int)),
                self@ == (GameView { core: self@.core, ..g0 }),
                cspent == (GameCoreView { units: spent_roster(g0.core, unit), ..g0.core }),
            decreases deltas@.len() - k,
        {
            let (uid, dvk) = deltas[k];
            proof {
                assert(dseq[k as int].1 == crate::combat::spec_health_delta(def) as i64);
                assert(-0x7fff_ffff_ffff <= dvk <= 0x7fff_ffff_ffff);
                lemma_apply_deltas_push(cspent, dseq.subrange(0, k as int), dseq[k as int]);
                assert(dseq.subrange(0, k + 1) =~= dseq.subrange(0, k as int).push(
                    dseq[k as int],
                ));
            }
            self.apply_one_delta(uid, dvk);
            k = k + 1;
        }
        proof {
            assert(dseq.subrange(0, dseq.len() as int) =~= dseq);
            assert(self@.core == apply_deltas(cspent, dseq));
        }
        self.curr_turn.log_change(
            ResolvedChange::Attack { attacker: unit, target, attack, deltas: logged },
        );
        proof {
            assert(final(self)@.core =~~= apply_change(g0.core, ch));
            assert(final(self)@ =~~= GameView {
                core: apply_change(g0.core, ch),
                curr_turn: TurnView { changes: g0.curr_turn.changes.push(ch), ..g0.curr_turn },
                ..g0
            });
        }
        Ok(ResolvedChange::Attack { attacker: unit, target, attack, deltas })
    }

    /// Resolve an ability proposal for the active unit. Ability content is
    /// external; this core fixes the budget check and the emitted change.
    fn do_ability(&mut self, player_id: PlayerId, target: Option<UnitId>) -> (r: Result<
        ResolvedChange,
        GameError,
    >)
        requires
            core_wf(old(self)@.core),
            action_legal(old(self)@, player_id, ActionView::Ability { target }),
        ensures
            core_wf(final(self)@.core),
            match r {
                Ok(ch) => proposal_outcome(
                    old(self)@,
                    final(self)@,
                    player_id,
                    ActionView::Ability { target },
                    Ok(ch@),
                ),
                Err(e) => proposal_outcome(
                    old(self)@,
                    final(self)@,
                    player_id,
                    ActionView::Ability { target },
                    Err(e),
                ),
            },
    {
        let ghost g0 = self@;
        let unit = match self.curr_turn.phase {
            RoundPhase::UnitTurn { unit } => unit,
            RoundPhase::SpawnPhase => {
                proof {
                    assert(false);
                }
                UnitId(0)
            },
        };
        let i = match self.find_index(unit) {
            Some(i) => i,
            None => {
                proof {
                    assert(false);
                }
                0
            },
        };
        if !self.units[i].has_budget(ActionKind::Ability) {
            return Err(GameError::IllegalAction);
        }
        let mu = vstd::std_specs::vec::vec_index_mut(&mut self.units, i);
        let _spent = mu.spend_action(ActionKind::Ability);
        self.curr_turn.log_change(ResolvedChange::Ability { unit_id: unit });
        proof {
            let ch = ChangeView::Ability { unit_id: unit };
            assert(final(self)@.core =~~= apply_change(g0.core, ch));
            assert(final(self)@ =~~= GameView {
                core: apply_change(g0.core, ch),
                curr_turn: TurnView { changes: g0.curr_turn.changes.push(ch), ..g0.curr_turn },
                ..g0
            });
            assert forall|m: int| 0 <= m < final(self)@.core.queue.len() implies unit_ids(
                final(self)@.core.units,
            ).contains(#[trigger] final(self)@.core.queue[m]) by {
                assert(unit_ids(final(self)@.core.units) =~= unit_ids(g0.core.units));
            }
            lemma_wf_units_similar(g0.core, final(self)@.core);
        }
        Ok(ResolvedChange::Ability { unit_id: unit })
    }

    /// Resolve a spawn proposal during the spawn phase.
    fn do_spawn(&mut self, player_id: PlayerId, unit_class: UnitClassId, position: Position) -> (r:
        Result<ResolvedChange, GameError>)
        requires
            core_wf(old(self)@.core),
            action_legal(old(self)@, player_id, ActionView::Spawn { unit: unit_class, position }),
        ensures
            core_wf(final(self)@.core),
            match r {
                Ok(ch) => proposal_outcome(
                    old(self)@,
                    final(self)@,
                    player_id,
                    ActionView::Spawn { unit: unit_class, position },
                    Ok(ch@),
                ),
                Err(e) => proposal_outcome(
                    old(self)@,
                    final(self)@,
                    player_id,
                    ActionView::Spawn { unit: unit_class, position },
                    Err(e),
                ),
            },
    {
        let ghost g0 = self@;
        let ok_cell = if self.grid.in_bounds(position) {
            let walk = match self.grid.get_terrain_type(position) {
                Some(t) => t.is_walkable(),
                None => {
                    proof {
                        assert(false);
                    }
                    false
                },
            };
            walk && match self.grid.occupant_at(position) {
                None => true,
                Some(_) => false,
            }
        } else {
            false
        };
        if !ok_cell {
            return Err(GameError::IllegalAction);
        }
        if self.count_owned_exec(player_id) >= SPAWN_QUOTA {
            return Err(GameError::NotEnoughResources);
        }
        match self.next_unit_id() {
            Some(_) => {},
            None => {
                return Err(GameError::NotEnoughResources);
            },
        }
        self.spawn_unit(unit_class, position, player_id);
        Ok(ResolvedChange::Spawn { unit: unit_class, owner: player_id, position })
    }

    /// Resolve an end-turn proposal.
    fn do_end_turn(&mut self, player_id: PlayerId) -> (r: Result<ResolvedChange, GameError>)
        requires
            core_wf(old(self)@.core),
            action_legal(old(self)@, player_id, ActionView::EndTurn),
        ensures
            core_wf(final(self)@.core),
            match r {
                Ok(ch) => proposal_outcome(
                    old(self)@,
                    final(self)@,
                    player_id,
                    ActionView::EndTurn,
                    Ok(ch@),
                ),
                Err(e) => proposal_outcome(
                    old(self)@,
                    final(self)@,
                    player_id,
                    ActionView::EndTurn,
                    Err(e),
                ),
            },
    {
        let is_spawn_phase = match self.curr_turn.phase {
            RoundPhase::SpawnPhase => true,
            RoundPhase::UnitTurn { .. } => false,
        };
        if is_spawn_phase && self.units.len() == 0 {
            return Err(GameError::IllegalAction);
        }
        if self.turn_number == u32::MAX || self.round_number == u32::MAX {
            return Err(GameError::IllegalAction);
        }
        self.commit_turn();
        Ok(ResolvedChange::EndTurn)
    }

    /// The single mutation entry point: check turn legality, validate the
    /// proposal, and either carry it out — logging the resolved change and
    /// advancing the turn machinery — or reject it with the exact error,
    /// leaving the whole state untouched.
    pub fn apply_proposed(&mut self, player_id: PlayerId, action: ProposedAction) -> (r: Result<
        ResolvedChange,
        GameError,
    >)
        requires
            core_wf(old(self)@.core),
        ensures
            core_wf(final(self)@.core),
            match r {
                Ok(ch) => proposal_outcome(old(self)@, final(self)@, player_id, action@, Ok(ch@)),
                Err(e) => proposal_outcome(old(self)@, final(self)@, player_id, action@, Err(e)),
            },
    {
        if !self.check_legality(player_id, &action) {
            return Err(GameError::NotYourTurn);
        }
        match action {
            ProposedAction::Move { path } => self.do_move(player_id, path),
            ProposedAction::Attack { target, attack } => self.do_attack(player_id, target, attack),
            ProposedAction::Ability { target } => self.do_ability(player_id, target),
            ProposedAction::Spawn { unit, position } => self.do_spawn(player_id, unit, position),
            ProposedAction::EndTurn => self.do_end_turn(player_id),
        }
    }
}

} // verus!
