//! The canonical draft model, and the parser that maps a raw session
//! document onto it.
//!
//! The parser is tolerant: cosmetic fields fall back to defaults, and
//! malformed entries inside arrays are skipped. Champion sentinels of `0`
//! are normalized to absent. Timer values are carried in thousandths of a
//! second; a raw value above a thousand seconds is read as milliseconds.

use vstd::prelude::*;

use crate::json::{
    field_bool, field_i64, field_int_lenient, field_str_owned, opt_as_array, opt_as_bool,
    opt_as_i64, opt_as_int_lenient, opt_as_milli, opt_as_str, opt_get, spec_get, JsonValue,
};
use crate::text::str_eq;

verus! {

/// One participant slot of a draft side.
#[derive(Debug, Clone)]
pub struct Cell {
    pub cell_id: i64,
    pub champion_id: Option<i64>,
    pub selected_champion_id: Option<i64>,
    pub assigned_position: Option<String>,
    pub spell1_id: Option<i64>,
    pub spell2_id: Option<i64>,
}

/// A locked champion, derived from a cell.
#[derive(Debug, Clone)]
pub struct ChampionPick {
    pub champion_id: i64,
    pub cell_id: Option<i64>,
    pub completed: bool,
    pub is_ally_pick: bool,
    pub position: Option<String>,
}

/// A ban, derived from the action sequence.
#[derive(Debug, Clone)]
pub struct ChampionBan {
    pub champion_id: i64,
    pub cell_id: Option<i64>,
    pub completed: bool,
    pub is_ally_ban: bool,
}

/// One entry of the flattened action sequence.
#[derive(Debug, Clone)]
pub struct DraftAction {
    pub id: i64,
    pub actor_cell_id: Option<i64>,
    pub champion_id: Option<i64>,
    pub selected_champion_id: Option<i64>,
    pub completed: bool,
    pub is_in_progress: bool,
    pub action_type: String,
}

/// One of the two draft sides; `100` is the near side, `200` the far one.
#[derive(Debug, Clone)]
pub struct Team {
    pub team_id: i64,
    pub picks: Vec<ChampionPick>,
    pub bans: Vec<ChampionBan>,
    pub cells: Vec<Cell>,
}

/// The canonical draft state. The timer is in thousandths of a second.
#[derive(Debug, Clone)]
pub struct DraftState {
    pub game_id: Option<i64>,
    pub timer_milli: Option<i64>,
    pub phase: String,
    pub teams: Vec<Team>,
    pub actions: Vec<DraftAction>,
}

#[verifier::ext_equal]
pub struct CellModel {
    pub cell_id: i64,
    pub champion_id: Option<i64>,
    pub selected_champion_id: Option<i64>,
    pub assigned_position: Option<Seq<char>>,
    pub spell1_id: Option<i64>,
    pub spell2_id: Option<i64>,
}

#[verifier::ext_equal]
pub struct PickModel {
    pub champion_id: i64,
    pub cell_id: Option<i64>,
    pub completed: bool,
    pub is_ally_pick: bool,
    pub position: Option<Seq<char>>,
}

#[verifier::ext_equal]
pub struct BanModel {
    pub champion_id: i64,
    pub cell_id: Option<i64>,
    pub completed: bool,
    pub is_ally_ban: bool,
}

#[verifier::ext_equal]
pub struct ActionModel {
    pub id: i64,
    pub actor_cell_id: Option<i64>,
    pub champion_id: Option<i64>,
    pub selected_champion_id: Option<i64>,
    pub completed: bool,
    pub is_in_progress: bool,
    pub action_type: Seq<char>,
}

#[verifier::ext_equal]
pub struct TeamModel {
    pub team_id: i64,
    pub picks: Seq<PickModel>,
    pub bans: Seq<BanModel>,
    pub cells: Seq<CellModel>,
}

#[verifier::ext_equal]
pub struct DraftModel {
    pub game_id: Option<i64>,
    pub timer_milli: Option<i64>,
    pub phase: Seq<char>,
    pub teams: Seq<TeamModel>,
    pub actions: Seq<ActionModel>,
}

/// The view of an optional owned string.
pub open spec fn opt_str_view(o: Option<String>) -> Option<Seq<char>> {
    match o {
        Some(s) => Some(s@),
        None => None,
    }
}

impl View for Cell {
    type V = CellModel;

    open spec fn view(&self) -> CellModel {
        CellModel {
            cell_id: self.cell_id,
            champion_id: self.champion_id,
            selected_champion_id: self.selected_champion_id,
            assigned_position: opt_str_view(self.assigned_position),
            spell1_id: self.spell1_id,
            spell2_id: self.spell2_id,
        }
    }
}

impl View for ChampionPick {
    type V = PickModel;

    open spec fn view(&self) -> PickModel {
        PickModel {
            champion_id: self.champion_id,
            cell_id: self.cell_id,
            completed: self.completed,
            is_ally_pick: self.is_ally_pick,
            position: opt_str_view(self.position),
        }
    }
}

impl View for ChampionBan {
    type V = BanModel;

    open spec fn view(&self) -> BanModel {
        BanModel {
            champion_id: self.champion_id,
            cell_id: self.cell_id,
            completed: self.completed,
            is_ally_ban: self.is_ally_ban,
        }
    }
}

impl View for DraftAction {
    type V = ActionModel;

    open spec fn view(&self) -> ActionModel {
        ActionModel {
            id: self.id,
            actor_cell_id: self.actor_cell_id,
            champion_id: self.champion_id,
            selected_champion_id: self.selected_champion_id,
            completed: self.completed,
            is_in_progress: self.is_in_progress,
            action_type: self.action_type@,
        }
    }
}

pub open spec fn cell_views(s: Seq<Cell>) -> Seq<CellModel> {
    s.map(|i: int, c: Cell| c@)
}

pub open spec fn pick_views(s: Seq<ChampionPick>) -> Seq<PickModel> {
    s.map(|i: int, p: ChampionPick| p@)
}

pub open spec fn ban_views(s: Seq<ChampionBan>) -> Seq<BanModel> {
    s.map(|i: int, b: ChampionBan| b@)
}

pub open spec fn action_views(s: Seq<DraftAction>) -> Seq<ActionModel> {
    s.map(|i: int, a: DraftAction| a@)
}

pub open spec fn team_views(s: Seq<Team>) -> Seq<TeamModel> {
    s.map(|i: int, t: Team| t@)
}

impl View for Team {
    type V = TeamModel;

    open spec fn view(&self) -> TeamModel {
        TeamModel {
            team_id: self.team_id,
            picks: pick_views(self.picks@),
            bans: ban_views(self.bans@),
            cells: cell_views(self.cells@),
        }
    }
}

impl View for DraftState {
    type V = DraftModel;

    open spec fn view(&self) -> DraftModel {
        DraftModel {
            game_id: self.game_id,
            timer_milli: self.timer_milli,
            phase: self.phase@,
            teams: team_views(self.teams@),
            actions: action_views(self.actions@),
        }
    }
}

/// A champion id of `0` is a sentinel for "none".
pub open spec fn norm_zero(o: Option<i64>) -> Option<i64> {
    if o == Some(0i64) {
        None
    } else {
        o
    }
}

fn norm_zero_exec(o: Option<i64>) -> (r: Option<i64>)
    ensures
        r == norm_zero(o),
{
    match o {
        Some(0i64) => None,
        _ => o,
    }
}

/// The hovered champion of a cell, read from the field variants the
/// service has shipped, numeric forms first.
pub open spec fn spec_selected(j: JsonValue) -> Option<i64> {
    match opt_as_i64(spec_get(j, "championPickIntent"@)) {
        Some(n) => Some(n),
        None => match opt_as_i64(spec_get(j, "selectedChampionId"@)) {
            Some(n) => Some(n),
            None => match opt_as_int_lenient(spec_get(j, "championPickIntent"@)) {
                Some(n) => Some(n),
                None => opt_as_int_lenient(spec_get(j, "selectedChampionId"@)),
            },
        },
    }
}

/// What one cell entry of a side array parses to.
pub open spec fn spec_cell(j: JsonValue) -> CellModel {
    CellModel {
        cell_id: match opt_as_i64(spec_get(j, "cellId"@)) {
            Some(n) => n,
            None => 0,
        },
        champion_id: norm_zero(opt_as_int_lenient(spec_get(j, "championId"@))),
        selected_champion_id: norm_zero(spec_selected(j)),
        assigned_position: opt_as_str(spec_get(j, "assignedPosition"@)),
        spell1_id: opt_as_i64(spec_get(j, "spell1Id"@)),
        spell2_id: opt_as_i64(spec_get(j, "spell2Id"@)),
    }
}

/// The cells of a side array: one per object entry, in source order; an
/// entry that is not an object is malformed and skipped.
pub open spec fn spec_cells(a: Seq<JsonValue>) -> Seq<CellModel>
    decreases a.len(),
{
    if a.len() == 0 {
        Seq::empty()
    } else {
        let rest = spec_cells(a.drop_last());
        if a.last() is Obj {
            rest.push(spec_cell(a.last()))
        } else {
            rest
        }
    }
}

/// The pick a cell with a locked champion yields.
pub open spec fn pick_of(j: JsonValue, ally: bool) -> PickModel {
    PickModel {
        champion_id: spec_cell(j).champion_id->Some_0,
        cell_id: Some(spec_cell(j).cell_id),
        completed: true,
        is_ally_pick: ally,
        position: spec_cell(j).assigned_position,
    }
}

/// The picks of a side: one per cell with a locked champion, in order.
/// Only object entries yield cells, and only an object can carry a
/// champion, so the guard mirrors the one on cells.
pub open spec fn spec_picks(a: Seq<JsonValue>, ally: bool) -> Seq<PickModel>
    decreases a.len(),
{
    if a.len() == 0 {
        Seq::empty()
    } else {
        let rest = spec_picks(a.drop_last(), ally);
        if a.last() is Obj && spec_cell(a.last()).champion_id is Some {
            rest.push(pick_of(a.last(), ally))
        } else {
            rest
        }
    }
}

/// Parse one cell entry.
fn parse_cell(j: &JsonValue) -> (c: Cell)
    ensures
        c@ == spec_cell(*j),
{
    let cell_id: i64 = match field_i64(j, "cellId") {
        Some(n) => n,
        None => 0,
    };
    let selected = match field_i64(j, "championPickIntent") {
        Some(n) => Some(n),
        None => match field_i64(j, "selectedChampionId") {
            Some(n) => Some(n),
            None => match field_int_lenient(j, "championPickIntent") {
                Some(n) => Some(n),
                None => field_int_lenient(j, "selectedChampionId"),
            },
        },
    };
    let c = Cell {
        cell_id,
        champion_id: norm_zero_exec(field_int_lenient(j, "championId")),
        selected_champion_id: norm_zero_exec(selected),
        assigned_position: field_str_owned(j, "assignedPosition"),
        spell1_id: field_i64(j, "spell1Id"),
        spell2_id: field_i64(j, "spell2Id"),
    };
    proof {
        assert(c@ =~= spec_cell(*j));
    }
    c
}

/// Parse one side array into its cells and the picks it yields.
fn parse_side(a: &Vec<JsonValue>, ally: bool) -> (r: (Vec<Cell>, Vec<ChampionPick>))
    ensures
        cell_views(r.0@) == spec_cells(a@),
        pick_views(r.1@) == spec_picks(a@, ally),
{
    let mut cells: Vec<Cell> = Vec::new();
    let mut picks: Vec<ChampionPick> = Vec::new();
    let n = a.len();
    let mut i: usize = 0;
    proof {
        assert(cell_views(cells@) =~= spec_cells(a@.take(0)));
        assert(pick_views(picks@) =~= spec_picks(a@.take(0), ally));
    }
    while i < n
        invariant
            i <= n,
            n == a@.len(),
            cell_views(cells@) == spec_cells(a@.take(i as int)),
            pick_views(picks@) == spec_picks(a@.take(i as int), ally),
        decreases n - i,
    {
        let j = &a[i];
        proof {
            assert(a@.take(i as int + 1).drop_last() =~= a@.take(i as int));
            assert(a@.take(i as int + 1).last() == a@[i as int]);
        }
        if j.is_object() {
            let c = parse_cell(j);
            match &c.champion_id {
                Some(champ) => {
                    let position = match &c.assigned_position {
                        Some(p) => Some(p.clone()),
                        None => None,
                    };
                    picks.push(
                        ChampionPick {
                            champion_id: *champ,
                            cell_id: Some(c.cell_id),
                            completed: true,
                            is_ally_pick: ally,
                            position,
                        },
                    );
                    proof {
                        assert(picks@.last()@ =~= pick_of(a@[i as int], ally));
                        assert(pick_views(picks@) =~= spec_picks(a@.take(i as int + 1), ally));
                    }
                },
                None => {
                    proof {
                        assert(pick_views(picks@) =~= spec_picks(a@.take(i as int + 1), ally));
                    }
                },
            }
            cells.push(c);
            proof {
                assert(cell_views(cells@) =~= spec_cells(a@.take(i as int + 1)));
            }
        } else {
            proof {
                assert(cell_views(cells@) =~= spec_cells(a@.take(i as int + 1)));
                assert(pick_views(picks@) =~= spec_picks(a@.take(i as int + 1), ally));
            }
        }
        i += 1;
    }
    proof {
        assert(a@.take(n as int) =~= a@);
    }
    (cells, picks)
}

/// The zero sentinel never survives parsing: no parsed cell carries
/// `Some(0)` as its locked or hovered champion. Malformed entries yield
/// no cell at all, so there are at most as many cells as entries.
pub proof fn lemma_cells_normalized(a: Seq<JsonValue>)
    ensures
        spec_cells(a).len() <= a.len(),
        forall|k: int|
            0 <= k < spec_cells(a).len() ==> (#[trigger] spec_cells(a)[k]).champion_id != Some(
                0i64,
            ) && spec_cells(a)[k].selected_champion_id != Some(0i64),
    decreases a.len(),
{
    if a.len() > 0 {
        lemma_cells_normalized(a.drop_last());
    }
}

/// Every object entry with a locked champion yields exactly its pick:
/// completed, on the cell's side, carrying the cell's champion, cell id
/// and position.
pub proof fn lemma_picks_correspond(a: Seq<JsonValue>, ally: bool)
    ensures
        forall|k: int|
            0 <= k < spec_picks(a, ally).len() ==> (#[trigger] spec_picks(a, ally)[k]).completed
                && spec_picks(a, ally)[k].is_ally_pick == ally,
        forall|k: int|
            0 <= k < a.len() && (#[trigger] a[k]) is Obj && spec_cell(a[k]).champion_id is Some
                ==> spec_picks(a, ally).contains(pick_of(a[k], ally)),
    decreases a.len(),
{
    if a.len() > 0 {
        lemma_picks_correspond(a.drop_last(), ally);
        let rest = spec_picks(a.drop_last(), ally);
        assert forall|k: int|
            0 <= k < a.len() && (#[trigger] a[k]) is Obj && spec_cell(a[k]).champion_id
            is Some implies spec_picks(a, ally).contains(pick_of(a[k], ally)) by {
            if k == a.len() - 1 {
                assert(spec_picks(a, ally).last() == pick_of(a.last(), ally));
            } else {
                assert(a.drop_last()[k] == a[k]);
                assert(rest.contains(pick_of(a[k], ally)));
                let idx = choose|idx: int|
                    0 <= idx < rest.len() && rest[idx] == pick_of(a[k], ally);
                assert(spec_picks(a, ally)[idx] == pick_of(a[k], ally));
            }
        }
    }
}

/// What one action entry parses to; entries without an id or a type are
/// skipped.
pub open spec fn spec_action(j: JsonValue) -> Option<ActionModel> {
    match opt_as_i64(spec_get(j, "id"@)) {
        None => None,
        Some(id) => match opt_as_str(spec_get(j, "type"@)) {
            None => None,
            Some(ty) => Some(
                ActionModel {
                    id,
                    actor_cell_id: opt_as_i64(spec_get(j, "actorCellId"@)),
                    champion_id: opt_as_int_lenient(spec_get(j, "championId"@)),
                    selected_champion_id: opt_as_int_lenient(spec_get(j, "selectedChampionId"@)),
                    completed: match opt_as_bool(spec_get(j, "completed"@)) {
                        Some(b) => b,
                        None => false,
                    },
                    is_in_progress: match opt_as_bool(spec_get(j, "isInProgress"@)) {
                        Some(b) => b,
                        None => false,
                    },
                    action_type: ty,
                },
            ),
        },
    }
}

/// The actions of one round group, in order, skipping malformed entries.
pub open spec fn spec_group_actions(inner: Seq<JsonValue>) -> Seq<ActionModel>
    decreases inner.len(),
{
    if inner.len() == 0 {
        Seq::empty()
    } else {
        let rest = spec_group_actions(inner.drop_last());
        match spec_action(inner.last()) {
            Some(m) => rest.push(m),
            None => rest,
        }
    }
}

/// The action groups flattened into one ordered sequence; an element that
/// is not an array contributes nothing.
pub open spec fn spec_action_groups(groups: Seq<JsonValue>) -> Seq<ActionModel>
    decreases groups.len(),
{
    if groups.len() == 0 {
        Seq::empty()
    } else {
        spec_action_groups(groups.drop_last()) + (match crate::json::spec_as_array(
            groups.last(),
        ) {
            Some(inner) => spec_group_actions(inner),
            None => Seq::empty(),
        })
    }
}

pub open spec fn spec_actions(s: JsonValue) -> Seq<ActionModel> {
    match opt_as_array(spec_get(s, "actions"@)) {
        Some(groups) => spec_action_groups(groups),
        None => Seq::empty(),
    }
}

fn parse_action(j: &JsonValue) -> (r: Option<DraftAction>)
    ensures
        match r {
            Some(a) => spec_action(*j) == Some(a@),
            None => spec_action(*j) is None,
        },
{
    let id = match field_i64(j, "id") {
        Some(id) => id,
        None => {
            return None;
        },
    };
    let action_type = match field_str_owned(j, "type") {
        Some(t) => t,
        None => {
            return None;
        },
    };
    let a = DraftAction {
        id,
        actor_cell_id: field_i64(j, "actorCellId"),
        champion_id: field_int_lenient(j, "championId"),
        selected_champion_id: field_int_lenient(j, "selectedChampionId"),
        completed: match field_bool(j, "completed") {
            Some(b) => b,
            None => false,
        },
        is_in_progress: match field_bool(j, "isInProgress") {
            Some(b) => b,
            None => false,
        },
        action_type,
    };
    proof {
        assert(a@ =~= spec_action(*j)->Some_0);
    }
    Some(a)
}

/// Flatten the action groups of the session into one ordered sequence.
fn parse_actions(session: &JsonValue) -> (acts: Vec<DraftAction>)
    ensures
        action_views(acts@) == spec_actions(*session),
{
    let mut acts: Vec<DraftAction> = Vec::new();
    let groups = match session.get("actions") {
        Some(v) => match v.as_array() {
            Some(g) => g,
            None => {
                proof {
                    assert(action_views(acts@) =~= spec_actions(*session));
                }
                return acts;
            },
        },
        None => {
            proof {
                assert(action_views(acts@) =~= spec_actions(*session));
            }
            return acts;
        },
    };
    let gn = groups.len();
    let mut g: usize = 0;
    proof {
        assert(groups@.take(0) =~= Seq::<JsonValue>::empty());
        assert(action_views(acts@) =~= spec_action_groups(groups@.take(0)));
    }
    while g < gn
        invariant
            g <= gn,
            gn == groups@.len(),
            action_views(acts@) == spec_action_groups(groups@.take(g as int)),
        decreases gn - g,
    {
        proof {
            assert(groups@.take(g as int + 1).drop_last() =~= groups@.take(g as int));
            assert(groups@.take(g as int + 1).last() == groups@[g as int]);
        }
        match groups[g].as_array() {
            Some(inner) => {
                let kn = inner.len();
                let mut k: usize = 0;
                proof {
                    assert(inner@.take(0) =~= Seq::<JsonValue>::empty());
                    assert(action_views(acts@) =~= spec_action_groups(groups@.take(g as int))
                        + spec_group_actions(inner@.take(0)));
                }
                while k < kn
                    invariant
                        k <= kn,
                        kn == inner@.len(),
                        action_views(acts@) == spec_action_groups(groups@.take(g as int))
                            + spec_group_actions(inner@.take(k as int)),
                    decreases kn - k,
                {
                    proof {
                        assert(inner@.take(k as int + 1).drop_last() =~= inner@.take(k as int));
                        assert(inner@.take(k as int + 1).last() == inner@[k as int]);
                    }
                    let ghost prev = acts@;
                    match parse_action(&inner[k]) {
                        Some(a) => {
                            let ghost am = a@;
                            acts.push(a);
                            proof {
                                assert(action_views(acts@) =~= action_views(prev).push(am));
                                assert(spec_group_actions(inner@.take(k as int + 1))
                                    =~= spec_group_actions(inner@.take(k as int)).push(am));
                                assert(action_views(acts@) =~= spec_action_groups(
                                    groups@.take(g as int),
                                ) + spec_group_actions(inner@.take(k as int + 1)));
                            }
                        },
                        None => {
                            proof {
                                assert(action_views(acts@) =~= spec_action_groups(
                                    groups@.take(g as int),
                                ) + spec_group_actions(inner@.take(k as int + 1)));
                            }
                        },
                    }
                    k += 1;
                }
                proof {
                    assert(inner@.take(kn as int) =~= inner@);
                    assert(action_views(acts@) =~= spec_action_groups(groups@.take(g as int + 1)));
                }
            },
            None => {
                proof {
                    assert(action_views(acts@) =~= spec_action_groups(groups@.take(g as int + 1)));
                }
            },
        }
        g += 1;
    }
    proof {
        assert(groups@.take(gn as int) =~= groups@);
    }
    acts
}

/// Whether a side's cells hold the given cell id.
pub open spec fn has_cell_id(cells: Seq<CellModel>, id: i64) -> bool {
    exists|k: int| 0 <= k < cells.len() && (#[trigger] cells[k]).cell_id == id
}

/// The side a ban is attributed to: the side whose cell set holds the
/// acting cell; when neither side holds it, the fixed convention that
/// cells 0 to 4 sit on the near side decides.
pub open spec fn spec_ban_is_near(
    actor: i64,
    near_cells: Seq<CellModel>,
    far_cells: Seq<CellModel>,
) -> bool {
    if has_cell_id(near_cells, actor) {
        true
    } else if has_cell_id(far_cells, actor) {
        false
    } else {
        actor < 5
    }
}

fn contains_cell_id(cells: &Vec<Cell>, id: i64) -> (r: bool)
    ensures
        r == has_cell_id(cell_views(cells@), id),
{
    let n = cells.len();
    let mut i: usize = 0;
    while i < n
        invariant
            i <= n,
            n == cells@.len(),
            forall|j: int| 0 <= j < i ==> (#[trigger] cell_views(cells@)[j]).cell_id != id,
        decreases n - i,
    {
        if cells[i].cell_id == id {
            proof {
                assert((cell_views(cells@)[i as int]).cell_id == id);
            }
            return true;
        }
        i += 1;
    }
    false
}

/// The ban-attribution policy, kept verbatim for compatibility: a known
/// cell id decides by side membership; an unknown one falls back to the
/// fixed numeric convention.
pub fn ban_assigned_to_near(actor: i64, near_cells: &Vec<Cell>, far_cells: &Vec<Cell>) -> (r: bool)
    ensures
        r == spec_ban_is_near(actor, cell_views(near_cells@), cell_views(far_cells@)),
{
    if contains_cell_id(near_cells, actor) {
        true
    } else if contains_cell_id(far_cells, actor) {
        false
    } else {
        actor < 5
    }
}

/// With no cell data for either side, attribution falls back to the
/// numeric convention alone: cells below five belong to the near side.
pub proof fn lemma_ban_fallback(actor: i64)
    ensures
        spec_ban_is_near(actor, Seq::empty(), Seq::empty()) == (actor < 5),
{
}

/// Whether an action contributes a ban: a ban action that names both a
/// champion and its acting cell.
pub open spec fn is_ban_action(a: ActionModel) -> bool {
    a.action_type == "ban"@ && a.champion_id is Some && a.actor_cell_id is Some
}

/// The ban a qualifying action contributes to the given side.
pub open spec fn ban_of(a: ActionModel, near: bool) -> BanModel {
    BanModel {
        champion_id: a.champion_id->Some_0,
        cell_id: a.actor_cell_id,
        completed: a.completed,
        is_ally_ban: near,
    }
}

/// The bans a side receives from the action sequence.
pub open spec fn spec_bans(
    actions: Seq<ActionModel>,
    near_cells: Seq<CellModel>,
    far_cells: Seq<CellModel>,
    near: bool,
) -> Seq<BanModel>
    decreases actions.len(),
{
    if actions.len() == 0 {
        Seq::empty()
    } else {
        let rest = spec_bans(actions.drop_last(), near_cells, far_cells, near);
        let a = actions.last();
        if is_ban_action(a) && spec_ban_is_near(a.actor_cell_id->Some_0, near_cells, far_cells)
            == near {
            rest.push(ban_of(a, near))
        } else {
            rest
        }
    }
}

/// Each side receives exactly the bans the attribution policy assigns to
/// it: every ban of the side carries the side's flag, and every
/// qualifying action whose acting cell the policy assigns to the side
/// appears among its bans.
pub proof fn lemma_bans_correspond(
    actions: Seq<ActionModel>,
    near_cells: Seq<CellModel>,
    far_cells: Seq<CellModel>,
    near: bool,
)
    ensures
        forall|k: int|
            0 <= k < spec_bans(actions, near_cells, far_cells, near).len() ==> (
            #[trigger] spec_bans(actions, near_cells, far_cells, near)[k]).is_ally_ban == near,
        forall|k: int|
            0 <= k < actions.len() && is_ban_action(#[trigger] actions[k]) && spec_ban_is_near(
                actions[k].actor_cell_id->Some_0,
                near_cells,
                far_cells,
            ) == near ==> spec_bans(actions, near_cells, far_cells, near).contains(
                ban_of(actions[k], near),
            ),
    decreases actions.len(),
{
    if actions.len() > 0 {
        lemma_bans_correspond(actions.drop_last(), near_cells, far_cells, near);
        let rest = spec_bans(actions.drop_last(), near_cells, far_cells, near);
        let whole = spec_bans(actions, near_cells, far_cells, near);
        assert forall|k: int|
            0 <= k < actions.len() && is_ban_action(#[trigger] actions[k]) && spec_ban_is_near(
                actions[k].actor_cell_id->Some_0,
                near_cells,
                far_cells,
            ) == near implies whole.contains(ban_of(actions[k], near)) by {
            if k == actions.len() - 1 {
                assert(whole.last() == ban_of(actions.last(), near));
            } else {
                assert(actions.drop_last()[k] == actions[k]);
                assert(rest.contains(ban_of(actions[k], near)));
                let idx = choose|idx: int|
                    0 <= idx < rest.len() && rest[idx] == ban_of(actions[k], near);
                assert(whole[idx] == ban_of(actions[k], near));
            }
        }
    }
}

/// Attribute the ban actions to the two sides, in action order.
fn collect_bans(actions: &Vec<DraftAction>, near_cells: &Vec<Cell>, far_cells: &Vec<Cell>) -> (r: (
    Vec<ChampionBan>,
    Vec<ChampionBan>,
))
    ensures
        ban_views(r.0@) == spec_bans(
            action_views(actions@),
            cell_views(near_cells@),
            cell_views(far_cells@),
            true,
        ),
        ban_views(r.1@) == spec_bans(
            action_views(actions@),
            cell_views(near_cells@),
            cell_views(far_cells@),
            false,
        ),
{
    let ghost ms = action_views(actions@);
    let ghost nc = cell_views(near_cells@);
    let ghost fc = cell_views(far_cells@);
    let mut near_bans: Vec<ChampionBan> = Vec::new();
    let mut far_bans: Vec<ChampionBan> = Vec::new();
    let n = actions.len();
    let mut i: usize = 0;
    proof {
        assert(ms.take(0) =~= Seq::<ActionModel>::empty());
        assert(ban_views(near_bans@) =~= spec_bans(ms.take(0), nc, fc, true));
        assert(ban_views(far_bans@) =~= spec_bans(ms.take(0), nc, fc, false));
    }
    while i < n
        invariant
            i <= n,
            n == actions@.len(),
            ms == action_views(actions@),
            nc == cell_views(near_cells@),
            fc == cell_views(far_cells@),
            ban_views(near_bans@) == spec_bans(ms.take(i as int), nc, fc, true),
            ban_views(far_bans@) == spec_bans(ms.take(i as int), nc, fc, false),
        decreases n - i,
    {
        proof {
            assert(ms.take(i as int + 1).drop_last() =~= ms.take(i as int));
            assert(ms.take(i as int + 1).last() == ms[i as int]);
            assert(ms[i as int] == actions@[i as int]@);
        }
        let a = &actions[i];
        if str_eq(a.action_type.as_str(), "ban") {
            match a.champion_id {
                Some(champ) => match a.actor_cell_id {
                    Some(actor) => {
                        let near_side = ban_assigned_to_near(actor, near_cells, far_cells);
                        let ban = ChampionBan {
                            champion_id: champ,
                            cell_id: Some(actor),
                            completed: a.completed,
                            is_ally_ban: near_side,
                        };
                        if near_side {
                            near_bans.push(ban);
                        } else {
                            far_bans.push(ban);
                        }
                    },
                    None => {},
                },
                None => {},
            }
        }
        proof {
            assert(ban_views(near_bans@) =~= spec_bans(ms.take(i as int + 1), nc, fc, true));
            assert(ban_views(far_bans@) =~= spec_bans(ms.take(i as int + 1), nc, fc, false));
        }
        i += 1;
    }
    proof {
        assert(ms.take(n as int) =~= ms);
    }
    (near_bans, far_bans)
}

/// The raw timer value, in thousandths, read from the field name variants
/// the service has shipped.
pub open spec fn spec_timer_raw(s: JsonValue) -> Option<i64> {
    match opt_as_milli(opt_get(spec_get(s, "timer"@), "adjustedTimeLeftInPhase"@)) {
        Some(t) => Some(t),
        None => opt_as_milli(opt_get(spec_get(s, "timer"@), "timeLeftInPhase"@)),
    }
}

/// The unit heuristic: a raw value above a thousand seconds is taken to
/// be in milliseconds and scaled down; anything else is kept unchanged.
pub open spec fn spec_normalize_timer(raw: i64) -> i64 {
    if raw > 1_000_000 {
        (raw / 1000) as i64
    } else {
        raw
    }
}

/// Normalize a raw timer value (in thousandths) to seconds, applying the
/// millisecond heuristic.
pub fn normalize_timer_milli(raw: i64) -> (r: i64)
    ensures
        r == spec_normalize_timer(raw),
        raw > 1_000_000 ==> r == raw / 1000,
        raw <= 1_000_000 ==> r == raw,
{
    if raw > 1_000_000 {
        let q: u64 = (raw as u64) / 1000;
        q as i64
    } else {
        raw
    }
}

fn read_timer(session: &JsonValue) -> (r: Option<i64>)
    ensures
        r == spec_timer_raw(*session),
{
    let timer = session.get("timer");
    let adjusted = match crate::json::opt_field(timer, "adjustedTimeLeftInPhase") {
        Some(v) => v.as_milli(),
        None => None,
    };
    match adjusted {
        Some(t) => Some(t),
        None => match crate::json::opt_field(timer, "timeLeftInPhase") {
            Some(v) => v.as_milli(),
            None => None,
        },
    }
}

/// The phase label of the draft timer, defaulting to `Unknown`.
pub open spec fn spec_phase(s: JsonValue) -> Seq<char> {
    match opt_as_str(opt_get(spec_get(s, "timer"@), "phase"@)) {
        Some(p) => p,
        None => "Unknown"@,
    }
}

fn read_phase(session: &JsonValue) -> (r: String)
    ensures
        r@ == spec_phase(*session),
{
    match crate::json::opt_field(session.get("timer"), "phase") {
        Some(v) => match v.as_string() {
            Some(s) => s.clone(),
            None => "Unknown".to_owned(),
        },
        None => "Unknown".to_owned(),
    }
}

/// What parsing a session document yields: the canonical draft state, or
/// an error on a structurally unparseable payload.
pub open spec fn spec_parse_draft(s: JsonValue) -> Result<DraftModel, Seq<char>> {
    let my = opt_as_array(spec_get(s, "myTeam"@));
    let their = opt_as_array(spec_get(s, "theirTeam"@));
    let groups = opt_as_array(spec_get(s, "actions"@));
    if !(s is Obj) || (my is None && their is None && groups is None) {
        Err("Unparseable draft session"@)
    } else {
        let near_cells = match my {
            Some(a) => spec_cells(a),
            None => Seq::empty(),
        };
        let far_cells = match their {
            Some(a) => spec_cells(a),
            None => Seq::empty(),
        };
        let acts = spec_actions(s);
        let teams = (match my {
            Some(a) => seq![
                TeamModel {
                    team_id: 100,
                    picks: spec_picks(a, true),
                    bans: spec_bans(acts, near_cells, far_cells, true),
                    cells: near_cells,
                },
            ],
            None => Seq::empty(),
        }) + (match their {
            Some(a) => seq![
                TeamModel {
                    team_id: 200,
                    picks: spec_picks(a, false),
                    bans: spec_bans(acts, near_cells, far_cells, false),
                    cells: far_cells,
                },
            ],
            None => Seq::empty(),
        });
        Ok(
            DraftModel {
                game_id: opt_as_i64(spec_get(s, "gameId"@)),
                timer_milli: match spec_timer_raw(s) {
                    Some(t) => Some(spec_normalize_timer(t)),
                    None => None,
                },
                phase: spec_phase(s),
                teams,
                actions: acts,
            },
        )
    }
}

/// Invariants of every parsed draft state: there are at most two teams,
/// each carries one of the two fixed side identifiers, no identifier
/// repeats, and no cell of any team surfaces the zero sentinel.
pub proof fn lemma_parsed_draft_invariants(s: JsonValue)
    requires
        spec_parse_draft(s) is Ok,
    ensures
        spec_parse_draft(s)->Ok_0.teams.len() <= 2,
        forall|t: int|
            0 <= t < spec_parse_draft(s)->Ok_0.teams.len() ==> (#[trigger] spec_parse_draft(
                s,
            )->Ok_0.teams[t]).team_id == 100 || spec_parse_draft(s)->Ok_0.teams[t].team_id == 200,
        forall|t1: int, t2: int|
            0 <= t1 < t2 < spec_parse_draft(s)->Ok_0.teams.len() ==> (#[trigger] spec_parse_draft(
                s,
            )->Ok_0.teams[t1]).team_id != (#[trigger] spec_parse_draft(s)->Ok_0.teams[t2]).team_id,
        forall|t: int, c: int|
            0 <= t < spec_parse_draft(s)->Ok_0.teams.len() && 0 <= c < spec_parse_draft(
                s,
            )->Ok_0.teams[t].cells.len() ==> (#[trigger] spec_parse_draft(
                s,
            )->Ok_0.teams[t].cells[c]).champion_id != Some(0i64) && spec_parse_draft(
                s,
            )->Ok_0.teams[t].cells[c].selected_champion_id != Some(0i64),
{
    let m = spec_parse_draft(s)->Ok_0;
    let my = opt_as_array(spec_get(s, "myTeam"@));
    let their = opt_as_array(spec_get(s, "theirTeam"@));
    match my {
        Some(a) => lemma_cells_normalized(a),
        None => {},
    }
    match their {
        Some(a) => lemma_cells_normalized(a),
        None => {},
    }
    assert forall|t: int, c: int|
        0 <= t < m.teams.len() && 0 <= c < m.teams[t].cells.len() implies (#[trigger] m.teams[t].cells[c]).champion_id
        != Some(0i64) && m.teams[t].cells[c].selected_champion_id != Some(0i64) by {
        if m.teams[t].team_id == 100 {
            assert(my is Some && m.teams[t].cells == spec_cells(my->Some_0));
        } else {
            assert(their is Some && m.teams[t].cells == spec_cells(their->Some_0));
        }
    }
}

/// The first team carrying the given side identifier.
pub open spec fn team_with_id(teams: Seq<TeamModel>, id: i64) -> Option<TeamModel>
    decreases teams.len(),
{
    if teams.len() == 0 {
        None
    } else if teams[0].team_id == id {
        Some(teams[0])
    } else {
        team_with_id(teams.drop_first(), id)
    }
}

/// Ban attribution, end to end: in every parsed draft each side holds
/// exactly the bans the policy assigns to it, in action order — by cell
/// membership where a side's cells know the acting cell, by the fixed
/// numeric convention where neither side's do — and every ban carries
/// its side's flag. A ban whose side has no team in the payload is
/// dropped.
pub proof fn lemma_parsed_ban_attribution(s: JsonValue)
    requires
        spec_parse_draft(s) is Ok,
    ensures
        ({
            let m = spec_parse_draft(s)->Ok_0;
            let nc = match team_with_id(m.teams, 100) {
                Some(t) => t.cells,
                None => Seq::<CellModel>::empty(),
            };
            let fc = match team_with_id(m.teams, 200) {
                Some(t) => t.cells,
                None => Seq::<CellModel>::empty(),
            };
            &&& (match team_with_id(m.teams, 100) {
                Some(t) => t.bans == spec_bans(m.actions, nc, fc, true),
                None => true,
            })
            &&& (match team_with_id(m.teams, 200) {
                Some(t) => t.bans == spec_bans(m.actions, nc, fc, false),
                None => true,
            })
            &&& forall|t: int, k: int|
                0 <= t < m.teams.len() && 0 <= k < m.teams[t].bans.len() ==> (
                #[trigger] m.teams[t].bans[k]).is_ally_ban == (m.teams[t].team_id == 100)
            &&& forall|k: int|
                0 <= k < m.actions.len() && is_ban_action(#[trigger] m.actions[k]) ==> (match
                team_with_id(
                    m.teams,
                    if spec_ban_is_near(m.actions[k].actor_cell_id->Some_0, nc, fc) {
                        100
                    } else {
                        200
                    },
                ) {
                    Some(t) => t.bans.contains(
                        ban_of(
                            m.actions[k],
                            spec_ban_is_near(m.actions[k].actor_cell_id->Some_0, nc, fc),
                        ),
                    ),
                    None => true,
                })
        }),
{
    let m = spec_parse_draft(s)->Ok_0;
    let my = opt_as_array(spec_get(s, "myTeam"@));
    let their = opt_as_array(spec_get(s, "theirTeam"@));
    let ncs = match my {
        Some(a) => spec_cells(a),
        None => Seq::<CellModel>::empty(),
    };
    let fcs = match their {
        Some(a) => spec_cells(a),
        None => Seq::<CellModel>::empty(),
    };
    if my is Some && their is Some {
        assert(m.teams.len() == 2);
        assert(team_with_id(m.teams, 100) == Some(m.teams[0]));
        assert(m.teams.drop_first() =~= seq![m.teams[1]]);
        assert(team_with_id(m.teams, 200) == Some(m.teams[1]));
    } else if my is Some {
        assert(m.teams.len() == 1);
        assert(team_with_id(m.teams, 100) == Some(m.teams[0]));
        assert(m.teams.drop_first() =~= Seq::<TeamModel>::empty());
        assert(team_with_id(Seq::<TeamModel>::empty(), 200) is None);
        assert(team_with_id(m.teams, 200) is None);
    } else if their is Some {
        assert(m.teams.len() == 1);
        assert(m.teams[0].team_id == 200);
        assert(m.teams.drop_first() =~= Seq::<TeamModel>::empty());
        assert(team_with_id(m.teams, 200) == Some(m.teams[0]));
        assert(team_with_id(Seq::<TeamModel>::empty(), 100) is None);
        assert(team_with_id(m.teams, 100) is None);
    } else {
        assert(m.teams.len() == 0);
    }
    lemma_bans_correspond(m.actions, ncs, fcs, true);
    lemma_bans_correspond(m.actions, ncs, fcs, false);
    assert forall|t: int, k: int|
        0 <= t < m.teams.len() && 0 <= k < m.teams[t].bans.len() implies (
    #[trigger] m.teams[t].bans[k]).is_ally_ban == (m.teams[t].team_id == 100) by {
        if m.teams[t].team_id == 100 {
            assert(m.teams[t].bans == spec_bans(m.actions, ncs, fcs, true));
        } else {
            assert(m.teams[t].bans == spec_bans(m.actions, ncs, fcs, false));
        }
    }
}

/// Map a raw session document to the canonical draft state.
pub fn parse_draft_session(session: &JsonValue) -> (r: Result<DraftState, String>)
    ensures
        match r {
            Ok(d) => spec_parse_draft(*session) == Ok::<DraftModel, Seq<char>>(d@),
            Err(e) => spec_parse_draft(*session) == Err::<DraftModel, Seq<char>>(e@),
        },
{
    let my_arr: Option<&Vec<JsonValue>> = match session.get("myTeam") {
        Some(v) => v.as_array(),
        None => None,
    };
    let their_arr: Option<&Vec<JsonValue>> = match session.get("theirTeam") {
        Some(v) => v.as_array(),
        None => None,
    };
    let groups_present: bool = match session.get("actions") {
        Some(v) => v.as_array().is_some(),
        None => false,
    };
    if !session.is_object() || (my_arr.is_none() && their_arr.is_none() && !groups_present) {
        return Err("Unparseable draft session".to_owned());
    }
    let (near_cells, near_picks) = match my_arr {
        Some(a) => parse_side(a, true),
        None => (Vec::new(), Vec::new()),
    };
    let (far_cells, far_picks) = match their_arr {
        Some(a) => parse_side(a, false),
        None => (Vec::new(), Vec::new()),
    };
    let actions = parse_actions(session);
    let (near_bans, far_bans) = collect_bans(&actions, &near_cells, &far_cells);
    let ghost m = spec_parse_draft(*session)->Ok_0;
    proof {
        assert(cell_views(Seq::<Cell>::empty()) =~= Seq::<CellModel>::empty());
        assert(pick_views(Seq::<ChampionPick>::empty()) =~= Seq::<PickModel>::empty());
    }
    let ghost tm100 = TeamModel {
        team_id: 100,
        picks: pick_views(near_picks@),
        bans: ban_views(near_bans@),
        cells: cell_views(near_cells@),
    };
    let ghost tm200 = TeamModel {
        team_id: 200,
        picks: pick_views(far_picks@),
        bans: ban_views(far_bans@),
        cells: cell_views(far_cells@),
    };
    let mut teams: Vec<Team> = Vec::new();
    let near_present = my_arr.is_some();
    let far_present = their_arr.is_some();
    proof {
        if near_present {
            assert(m.teams =~~= (seq![tm100]) + (if far_present {
                seq![tm200]
            } else {
                Seq::<TeamModel>::empty()
            }));
        } else {
            assert(m.teams =~~= (if far_present {
                seq![tm200]
            } else {
                Seq::<TeamModel>::empty()
            }));
        }
    }
    if near_present {
        teams.push(Team { team_id: 100, picks: near_picks, bans: near_bans, cells: near_cells });
        proof {
            assert(teams@.last()@ =~~= tm100);
        }
    }
    if far_present {
        teams.push(Team { team_id: 200, picks: far_picks, bans: far_bans, cells: far_cells });
        proof {
            assert(teams@.last()@ =~~= tm200);
        }
    }
    proof {
        assert(team_views(teams@) =~~= m.teams);
    }
    let timer_milli = match read_timer(session) {
        Some(t) => Some(normalize_timer_milli(t)),
        None => None,
    };
    let d = DraftState {
        game_id: field_i64(session, "gameId"),
        timer_milli,
        phase: read_phase(session),
        teams,
        actions,
    };
    proof {
        assert(d@ =~~= m);
    }
    Ok(d)
}

} // verus!
