use lcu_draft::draft::{ban_assigned_to_near, normalize_timer_milli, parse_draft_session, Cell};
use lcu_draft::json::JsonValue;

fn dobj(entries: Vec<(&str, JsonValue)>) -> JsonValue {
    JsonValue::Obj(entries.into_iter().map(|(k, v)| (k.to_string(), v)).collect())
}

fn dcell(cell_id: i64, champion_id: i64, selected: i64) -> JsonValue {
    dobj(vec![
        ("cellId", JsonValue::Int(cell_id)),
        ("championId", JsonValue::Int(champion_id)),
        ("selectedChampionId", JsonValue::Int(selected)),
        ("assignedPosition", JsonValue::Str("top".to_string())),
        ("spell1Id", JsonValue::Int(4)),
        ("spell2Id", JsonValue::Int(14)),
    ])
}

fn dban(id: i64, actor_cell_id: i64, champion_id: i64) -> JsonValue {
    dobj(vec![
        ("id", JsonValue::Int(id)),
        ("actorCellId", JsonValue::Int(actor_cell_id)),
        ("championId", JsonValue::Int(champion_id)),
        ("completed", JsonValue::Bool(true)),
        ("isInProgress", JsonValue::Bool(false)),
        ("type", JsonValue::Str("ban".to_string())),
    ])
}

#[test]
fn test_sentinel_zero_normalizes_to_absent() {
    let session = dobj(vec![
        ("myTeam", JsonValue::Arr(vec![dcell(0, 0, 0), dcell(1, 77, 0)])),
        ("theirTeam", JsonValue::Arr(vec![])),
        ("actions", JsonValue::Arr(vec![])),
    ]);
    let d = parse_draft_session(&session).unwrap();
    let near = &d.teams[0];
    assert_eq!(near.cells[0].champion_id, None);
    assert_eq!(near.cells[0].selected_champion_id, None);
    assert_eq!(near.cells[1].champion_id, Some(77));
    // the locked champion yields exactly one completed ally pick
    assert_eq!(near.picks.len(), 1);
    assert_eq!(near.picks[0].champion_id, 77);
    assert_eq!(near.picks[0].cell_id, Some(1));
    assert!(near.picks[0].completed);
    assert!(near.picks[0].is_ally_pick);
}

#[test]
fn test_string_encoded_champion_id() {
    let session = dobj(vec![(
        "myTeam",
        JsonValue::Arr(vec![dobj(vec![
            ("cellId", JsonValue::Int(2)),
            ("championId", JsonValue::Str("55".to_string())),
        ])]),
    )]);
    let d = parse_draft_session(&session).unwrap();
    assert_eq!(d.teams[0].cells[0].champion_id, Some(55));
    assert_eq!(d.teams[0].picks[0].champion_id, 55);
}

#[test]
fn test_malformed_side_entries_are_skipped() {
    // a side-array entry that is not an object yields no cell at all
    let session = dobj(vec![("myTeam", JsonValue::Arr(vec![JsonValue::Int(5)]))]);
    let d = parse_draft_session(&session).unwrap();
    assert_eq!(d.teams[0].cells.len(), 0);
    assert_eq!(d.teams[0].picks.len(), 0);

    // well-formed entries around a malformed one are kept, in order
    let session = dobj(vec![(
        "myTeam",
        JsonValue::Arr(vec![
            JsonValue::Int(5),
            dcell(1, 77, 0),
            JsonValue::Str("noise".to_string()),
            dcell(2, 0, 0),
        ]),
    )]);
    let d = parse_draft_session(&session).unwrap();
    assert_eq!(d.teams[0].cells.len(), 2);
    assert_eq!(d.teams[0].cells[0].cell_id, 1);
    assert_eq!(d.teams[0].cells[1].cell_id, 2);
    assert_eq!(d.teams[0].picks.len(), 1);
    assert_eq!(d.teams[0].picks[0].champion_id, 77);
}

#[test]
fn test_selected_champion_field_priority() {
    // a numeric selection wins over a string-encoded pick intent
    let session = dobj(vec![(
        "myTeam",
        JsonValue::Arr(vec![dobj(vec![
            ("cellId", JsonValue::Int(0)),
            ("championPickIntent", JsonValue::Str("12".to_string())),
            ("selectedChampionId", JsonValue::Int(5)),
        ])]),
    )]);
    let d = parse_draft_session(&session).unwrap();
    assert_eq!(d.teams[0].cells[0].selected_champion_id, Some(5));

    // the string-encoded intent is used when no numeric form exists
    let session = dobj(vec![(
        "myTeam",
        JsonValue::Arr(vec![dobj(vec![
            ("cellId", JsonValue::Int(0)),
            ("championPickIntent", JsonValue::Str("12".to_string())),
        ])]),
    )]);
    let d = parse_draft_session(&session).unwrap();
    assert_eq!(d.teams[0].cells[0].selected_champion_id, Some(12));
}

#[test]
fn test_timer_unit_heuristic() {
    // 27000 raw is read as milliseconds: 27.0 seconds
    assert_eq!(normalize_timer_milli(27_000_000), 27_000);
    // 27.5 raw is already seconds and stays unchanged
    assert_eq!(normalize_timer_milli(27_500), 27_500);

    let ms_session = dobj(vec![
        ("myTeam", JsonValue::Arr(vec![])),
        (
            "timer",
            dobj(vec![
                ("adjustedTimeLeftInPhase", JsonValue::Int(27000)),
                ("phase", JsonValue::Str("BAN_PICK".to_string())),
            ]),
        ),
    ]);
    let d = parse_draft_session(&ms_session).unwrap();
    assert_eq!(d.timer_milli, Some(27_000));
    assert_eq!(d.phase, "BAN_PICK");

    let s_session = dobj(vec![
        ("myTeam", JsonValue::Arr(vec![])),
        ("timer", dobj(vec![("timeLeftInPhase", JsonValue::Frac(27_500))])),
    ]);
    let d = parse_draft_session(&s_session).unwrap();
    assert_eq!(d.timer_milli, Some(27_500));
    assert_eq!(d.phase, "Unknown");
}

#[test]
fn test_ban_attribution_fallback() {
    let no_cells: Vec<Cell> = Vec::new();
    assert!(ban_assigned_to_near(3, &no_cells, &no_cells));
    assert!(!ban_assigned_to_near(7, &no_cells, &no_cells));

    // with no cell data populated, actor 3 goes to the near side (100),
    // actor 7 to the far side (200)
    let session = dobj(vec![
        ("myTeam", JsonValue::Arr(vec![])),
        ("theirTeam", JsonValue::Arr(vec![])),
        (
            "actions",
            JsonValue::Arr(vec![JsonValue::Arr(vec![dban(1, 3, 266), dban(2, 7, 103)])]),
        ),
    ]);
    let d = parse_draft_session(&session).unwrap();
    let near = &d.teams[0];
    let far = &d.teams[1];
    assert_eq!(near.team_id, 100);
    assert_eq!(far.team_id, 200);
    assert_eq!(near.bans.len(), 1);
    assert_eq!(near.bans[0].champion_id, 266);
    assert!(near.bans[0].is_ally_ban);
    assert_eq!(far.bans.len(), 1);
    assert_eq!(far.bans[0].champion_id, 103);
    assert!(!far.bans[0].is_ally_ban);
}

#[test]
fn test_ban_attribution_by_cell_membership() {
    // a cell id that belongs to the far side's cells wins over the
    // numeric fallback
    let session = dobj(vec![
        ("myTeam", JsonValue::Arr(vec![dcell(0, 0, 0)])),
        ("theirTeam", JsonValue::Arr(vec![dcell(3, 0, 0)])),
        ("actions", JsonValue::Arr(vec![JsonValue::Arr(vec![dban(9, 3, 412)])])),
    ]);
    let d = parse_draft_session(&session).unwrap();
    assert_eq!(d.teams[0].bans.len(), 0);
    assert_eq!(d.teams[1].bans.len(), 1);
    assert_eq!(d.teams[1].bans[0].champion_id, 412);
}

#[test]
fn test_actions_flattened_in_order() {
    let a1 = dban(10, 0, 51);
    let mut a2 = dban(11, 5, 0);
    if let JsonValue::Obj(ref mut entries) = a2 {
        entries.retain(|(k, _)| k != "championId");
    }
    let session = dobj(vec![
        ("myTeam", JsonValue::Arr(vec![])),
        (
            "actions",
            JsonValue::Arr(vec![
                JsonValue::Arr(vec![a1]),
                JsonValue::Int(7),
                JsonValue::Arr(vec![a2, JsonValue::Str("skipped".to_string())]),
            ]),
        ),
    ]);
    let d = parse_draft_session(&session).unwrap();
    assert_eq!(d.actions.len(), 2);
    assert_eq!(d.actions[0].id, 10);
    assert_eq!(d.actions[1].id, 11);
    assert_eq!(d.actions[1].champion_id, None);
    // a ban action without a champion id contributes no ban
    assert_eq!(d.teams[0].bans.len(), 1);
    assert_eq!(d.teams[0].bans[0].champion_id, 51);
}

#[test]
fn test_game_id_and_defaults() {
    let session = dobj(vec![
        ("gameId", JsonValue::Int(987654321)),
        ("myTeam", JsonValue::Arr(vec![dobj(vec![])])),
    ]);
    let d = parse_draft_session(&session).unwrap();
    assert_eq!(d.game_id, Some(987654321));
    assert_eq!(d.timer_milli, None);
    assert_eq!(d.phase, "Unknown");
    let cell = &d.teams[0].cells[0];
    assert_eq!(cell.cell_id, 0);
    assert_eq!(cell.champion_id, None);
    assert_eq!(cell.assigned_position, None);
}

#[test]
fn test_unparseable_payload_is_an_error() {
    assert!(parse_draft_session(&JsonValue::Null).is_err());
    assert!(parse_draft_session(&JsonValue::Arr(vec![])).is_err());
    // an object without side arrays and without actions is unparseable
    let bare = dobj(vec![("gameId", JsonValue::Int(1))]);
    assert!(parse_draft_session(&bare).is_err());
    // one side array alone is enough
    let one_side = dobj(vec![("theirTeam", JsonValue::Arr(vec![]))]);
    let d = parse_draft_session(&one_side).unwrap();
    assert_eq!(d.teams.len(), 1);
    assert_eq!(d.teams[0].team_id, 200);
}
