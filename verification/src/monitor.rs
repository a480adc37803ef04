//! The polling monitor's decision core: given the last notified snapshot
//! and a fresh poll outcome, decide what to emit and what to retain.
//!
//! A successful poll notifies when the state differs structurally, the
//! timer moved by more than the epsilon, or the phase label changed. A
//! failed poll notifies once, on the transition out of a valid snapshot,
//! and is silent while no draft is being observed.

use vstd::prelude::*;

use crate::draft::{
    action_views, ban_views, cell_views, pick_views, team_views, Cell, ChampionBan, ChampionPick,
    DraftAction, DraftModel, DraftState, Team,
};
use crate::text::str_eq;

verus! {

/// What a tick hands to the listener boundary.
pub enum MonitorEvent {
    /// The draft state changed; the retained snapshot carries it.
    StateChanged,
    /// A poll failed right after valid observations.
    Error(String),
}

/// The monitor's state: the last notified snapshot, if any.
pub struct MonitorState {
    pub last: Option<DraftState>,
}

pub open spec fn last_view(st: MonitorState) -> Option<DraftModel> {
    match st.last {
        Some(d) => Some(d@),
        None => None,
    }
}

/// The timer signal: fires when both readings exist and differ by more
/// than the epsilon of a hundredth of a second, or when one side of the
/// comparison is missing.
pub open spec fn timer_delta_fires(a: Option<i64>, b: Option<i64>) -> bool {
    match (a, b) {
        (Some(x), Some(y)) => (if x >= y {
            x - y
        } else {
            y - x
        }) > 10,
        (None, None) => false,
        _ => true,
    }
}

/// Whether a successful poll must notify: always on the first snapshot,
/// then on structural change, timer movement, or a phase change.
pub open spec fn spec_should_emit(last: Option<DraftModel>, s: DraftModel) -> bool {
    match last {
        None => true,
        Some(l) => l != s || timer_delta_fires(l.timer_milli, s.timer_milli) || l.phase != s.phase,
    }
}

fn opt_i64_eq(a: &Option<i64>, b: &Option<i64>) -> (r: bool)
    ensures
        r == (*a == *b),
{
    match (a, b) {
        (Some(x), Some(y)) => *x == *y,
        (None, None) => true,
        _ => false,
    }
}

fn opt_str_eq(a: &Option<String>, b: &Option<String>) -> (r: bool)
    ensures
        r == (crate::draft::opt_str_view(*a) == crate::draft::opt_str_view(*b)),
{
    match (a, b) {
        (Some(x), Some(y)) => str_eq(x.as_str(), y.as_str()),
        (None, None) => true,
        _ => false,
    }
}

fn cell_eq(a: &Cell, b: &Cell) -> (r: bool)
    ensures
        r == (a@ == b@),
{
    let r = a.cell_id == b.cell_id && opt_i64_eq(&a.champion_id, &b.champion_id) && opt_i64_eq(
        &a.selected_champion_id,
        &b.selected_champion_id,
    ) && opt_str_eq(&a.assigned_position, &b.assigned_position) && opt_i64_eq(
        &a.spell1_id,
        &b.spell1_id,
    ) && opt_i64_eq(&a.spell2_id, &b.spell2_id);
    proof {
        if r {
            assert(a@ =~= b@);
        }
    }
    r
}

fn pick_eq(a: &ChampionPick, b: &ChampionPick) -> (r: bool)
    ensures
        r == (a@ == b@),
{
    let r = a.champion_id == b.champion_id && opt_i64_eq(&a.cell_id, &b.cell_id) && a.completed
        == b.completed && a.is_ally_pick == b.is_ally_pick && opt_str_eq(&a.position, &b.position);
    proof {
        if r {
            assert(a@ =~= b@);
        }
    }
    r
}

fn ban_eq(a: &ChampionBan, b: &ChampionBan) -> (r: bool)
    ensures
        r == (a@ == b@),
{
    let r = a.champion_id == b.champion_id && opt_i64_eq(&a.cell_id, &b.cell_id) && a.completed
        == b.completed && a.is_ally_ban == b.is_ally_ban;
    proof {
        if r {
            assert(a@ =~= b@);
        }
    }
    r
}

fn action_eq(a: &DraftAction, b: &DraftAction) -> (r: bool)
    ensures
        r == (a@ == b@),
{
    let r = a.id == b.id && opt_i64_eq(&a.actor_cell_id, &b.actor_cell_id) && opt_i64_eq(
        &a.champion_id,
        &b.champion_id,
    ) && opt_i64_eq(&a.selected_champion_id, &b.selected_champion_id) && a.completed == b.completed
        && a.is_in_progress == b.is_in_progress && str_eq(
        a.action_type.as_str(),
        b.action_type.as_str(),
    );
    proof {
        if r {
            assert(a@ =~= b@);
        }
    }
    r
}

fn cells_eq(a: &Vec<Cell>, b: &Vec<Cell>) -> (r: bool)
    ensures
        r == (cell_views(a@) == cell_views(b@)),
{
    if a.len() != b.len() {
        return false;
    }
    let n = a.len();
    let mut i: usize = 0;
    while i < n
        invariant
            i <= n,
            n == a@.len() == b@.len(),
            forall|j: int| 0 <= j < i ==> cell_views(a@)[j] == cell_views(b@)[j],
        decreases n - i,
    {
        if !cell_eq(&a[i], &b[i]) {
            assert(cell_views(a@)[i as int] != cell_views(b@)[i as int]);
            return false;
        }
        i += 1;
    }
    proof {
        assert(cell_views(a@) =~= cell_views(b@));
    }
    true
}

fn picks_eq(a: &Vec<ChampionPick>, b: &Vec<ChampionPick>) -> (r: bool)
    ensures
        r == (pick_views(a@) == pick_views(b@)),
{
    if a.len() != b.len() {
        return false;
    }
    let n = a.len();
    let mut i: usize = 0;
    while i < n
        invariant
            i <= n,
            n == a@.len() == b@.len(),
            forall|j: int| 0 <= j < i ==> pick_views(a@)[j] == pick_views(b@)[j],
        decreases n - i,
    {
        if !pick_eq(&a[i], &b[i]) {
            assert(pick_views(a@)[i as int] != pick_views(b@)[i as int]);
            return false;
        }
        i += 1;
    }
    proof {
        assert(pick_views(a@) =~= pick_views(b@));
    }
    true
}

fn bans_eq(a: &Vec<ChampionBan>, b: &Vec<ChampionBan>) -> (r: bool)
    ensures
        r == (ban_views(a@) == ban_views(b@)),
{
    if a.len() != b.len() {
        return false;
    }
    let n = a.len();
    let mut i: usize = 0;
    while i < n
        invariant
            i <= n,
            n == a@.len() == b@.len(),
            forall|j: int| 0 <= j < i ==> ban_views(a@)[j] == ban_views(b@)[j],
        decreases n - i,
    {
        if !ban_eq(&a[i], &b[i]) {
            assert(ban_views(a@)[i as int] != ban_views(b@)[i as int]);
            return false;
        }
        i += 1;
    }
    proof {
        assert(ban_views(a@) =~= ban_views(b@));
    }
    true
}

fn actions_eq(a: &Vec<DraftAction>, b: &Vec<DraftAction>) -> (r: bool)
    ensures
        r == (action_views(a@) == action_views(b@)),
{
    if a.len() != b.len() {
        return false;
    }
    let n = a.len();
    let mut i: usize = 0;
    while i < n
        invariant
            i <= n,
            n == a@.len() == b@.len(),
            forall|j: int| 0 <= j < i ==> action_views(a@)[j] == action_views(b@)[j],
        decreases n - i,
    {
        if !action_eq(&a[i], &b[i]) {
            assert(action_views(a@)[i as int] != action_views(b@)[i as int]);
            return false;
        }
        i += 1;
    }
    proof {
        assert(action_views(a@) =~= action_views(b@));
    }
    true
}

fn team_eq(a: &Team, b: &Team) -> (r: bool)
    ensures
        r == (a@ == b@),
{
    let r = a.team_id == b.team_id && picks_eq(&a.picks, &b.picks) && bans_eq(&a.bans, &b.bans)
        && cells_eq(&a.cells, &b.cells);
    proof {
        if r {
            assert(a@ =~= b@);
        }
    }
    r
}

fn teams_eq(a: &Vec<Team>, b: &Vec<Team>) -> (r: bool)
    ensures
        r == (team_views(a@) == team_views(b@)),
{
    if a.len() != b.len() {
        return false;
    }
    let n = a.len();
    let mut i: usize = 0;
    while i < n
        invariant
            i <= n,
            n == a@.len() == b@.len(),
            forall|j: int| 0 <= j < i ==> team_views(a@)[j] == team_views(b@)[j],
        decreases n - i,
    {
        if !team_eq(&a[i], &b[i]) {
            assert(team_views(a@)[i as int] != team_views(b@)[i as int]);
            return false;
        }
        i += 1;
    }
    proof {
        assert(team_views(a@) =~= team_views(b@));
    }
    true
}

/// Structural equality of two draft states, the monitor's snapshot
/// comparison.
pub fn draft_states_equal(a: &DraftState, b: &DraftState) -> (r: bool)
    ensures
        r == (a@ == b@),
{
    let r = opt_i64_eq(&a.game_id, &b.game_id) && opt_i64_eq(&a.timer_milli, &b.timer_milli)
        && str_eq(a.phase.as_str(), b.phase.as_str()) && teams_eq(&a.teams, &b.teams) && actions_eq(
        &a.actions,
        &b.actions,
    );
    proof {
        if r {
            assert(a@ =~= b@);
        }
    }
    r
}

fn timer_fires(a: &Option<i64>, b: &Option<i64>) -> (r: bool)
    ensures
        r == timer_delta_fires(*a, *b),
{
    match (a, b) {
        (Some(x), Some(y)) => {
            let d: i128 = (*x as i128) - (*y as i128);
            d > 10 || d < -10
        },
        (None, None) => false,
        _ => true,
    }
}

impl MonitorState {
    /// A monitor that has not observed a draft yet.
    pub fn new() -> (s: Self)
        ensures
            last_view(s) is None,
    {
        MonitorState { last: None }
    }

    /// Digest one poll outcome: decide what to emit, and retain the
    /// snapshot of a successful poll. A failure notifies only on the
    /// transition out of a valid snapshot, and clears it.
    pub fn tick(self, poll: Result<DraftState, String>) -> (r: (MonitorState, Option<MonitorEvent>))
        ensures
            match poll {
                Ok(s) => {
                    &&& last_view(r.0) == Some(s@)
                    &&& r.1 == (if spec_should_emit(last_view(self), s@) {
                        Some(MonitorEvent::StateChanged)
                    } else {
                        None::<MonitorEvent>
                    })
                },
                Err(e) => {
                    &&& last_view(r.0) is None
                    &&& match r.1 {
                        Some(MonitorEvent::Error(msg)) => last_view(self) is Some && msg == e,
                        Some(MonitorEvent::StateChanged) => false,
                        None => last_view(self) is None,
                    }
                },
            },
    {
        match poll {
            Ok(s) => {
                let emit: bool = match &self.last {
                    None => true,
                    Some(l) => !draft_states_equal(l, &s) || timer_fires(
                        &l.timer_milli,
                        &s.timer_milli,
                    ) || !str_eq(l.phase.as_str(), s.phase.as_str()),
                };
                let ev = if emit {
                    Some(MonitorEvent::StateChanged)
                } else {
                    None
                };
                (MonitorState { last: Some(s) }, ev)
            },
            Err(e) => {
                let had = match &self.last {
                    Some(_) => true,
                    None => false,
                };
                let ev = if had {
                    Some(MonitorEvent::Error(e))
                } else {
                    None
                };
                (MonitorState { last: None }, ev)
            },
        }
    }
}

/// A snapshot identical to the retained one — same structure, same
/// timer, same phase — never notifies again.
pub proof fn lemma_identical_state_is_silent(l: DraftModel)
    ensures
        !spec_should_emit(Some(l), l),
{
}

/// A timer that moved beyond the epsilon notifies, whatever else stayed
/// the same.
pub proof fn lemma_timer_movement_notifies(l: DraftModel, s: DraftModel)
    requires
        timer_delta_fires(l.timer_milli, s.timer_milli),
    ensures
        spec_should_emit(Some(l), s),
{
}

} // verus!
