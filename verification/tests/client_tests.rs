use lcu_draft::client::{
    cached_after, connection_status_of, flow_start, flow_step, parse_gameflow_phase,
    parse_match_history, parse_ranked_stats, parse_summoner_info, FetchEvent, FlowOutcome,
    FlowStep,
};
use lcu_draft::json::JsonValue;
use lcu_draft::lockfile::LockfileData;

fn cobj(entries: Vec<(&str, JsonValue)>) -> JsonValue {
    JsonValue::Obj(entries.into_iter().map(|(k, v)| (k.to_string(), v)).collect())
}

fn creds(port: u16, password: &str) -> LockfileData {
    LockfileData {
        process_name: "LeagueClient".to_string(),
        process_id: 0,
        port,
        password: password.to_string(),
        protocol: "https".to_string(),
    }
}

#[test]
fn test_retry_recovers_after_one_transport_failure() {
    // first attempt with cached credentials fails; the flow re-resolves
    // and the second attempt succeeds, with no visible error
    let flow = flow_start(Some(creds(1000, "stale")));
    let flow = flow_step(flow, FetchEvent::RequestFailed("connection refused".to_string()));
    assert!(matches!(flow, FlowStep::EnsureCredentials { second_attempt: true }));
    let flow = flow_step(flow, FetchEvent::ResolveOk(creds(2000, "fresh")));
    let flow = flow_step(flow, FetchEvent::RequestOk);
    match flow {
        FlowStep::Done { outcome: FlowOutcome::Success { creds } } => {
            assert_eq!(creds.port, 2000);
            assert_eq!(creds.password, "fresh");
            // the working credentials stay cached
            let cached = cached_after(FlowOutcome::Success { creds });
            assert_eq!(cached.unwrap().port, 2000);
        },
        _ => panic!("expected success"),
    }
}

#[test]
fn test_two_failures_surface_one_terminal_error() {
    let flow = flow_start(Some(creds(1000, "stale")));
    let flow = flow_step(flow, FetchEvent::RequestFailed("first".to_string()));
    let flow = flow_step(flow, FetchEvent::ResolveOk(creds(2000, "fresh")));
    let flow = flow_step(flow, FetchEvent::RequestFailed("second".to_string()));
    match flow {
        FlowStep::Done { outcome } => match outcome {
            FlowOutcome::RequestFailed { ref error } => {
                assert_eq!(error, "second");
                // any failure invalidates the credentials wholesale
                assert!(cached_after(outcome.clone()).is_none());
            },
            _ => panic!("expected a terminal request failure"),
        },
        _ => panic!("expected the flow to be done"),
    }
}

#[test]
fn test_resolution_failure_is_not_retried() {
    let flow = flow_start(None);
    assert!(matches!(flow, FlowStep::EnsureCredentials { second_attempt: false }));
    let flow = flow_step(flow, FetchEvent::ResolveFailed("client not running".to_string()));
    match flow {
        FlowStep::Done { outcome: FlowOutcome::NoCredentials { error } } => {
            assert_eq!(error, "client not running");
        },
        _ => panic!("expected an immediate credential failure"),
    }
}

#[test]
fn test_connection_status_messages() {
    let ok = connection_status_of(FlowOutcome::Success { creds: creds(1, "p") });
    assert!(ok.connected);
    assert!(ok.error.is_none());

    let no_creds =
        connection_status_of(FlowOutcome::NoCredentials { error: "nope".to_string() });
    assert!(!no_creds.connected);
    assert_eq!(no_creds.error.unwrap(), "nope");

    let failed =
        connection_status_of(FlowOutcome::RequestFailed { error: "HTTP error: 500".to_string() });
    assert!(!failed.connected);
    assert_eq!(failed.error.unwrap(), "Failed to connect to LCU API: HTTP error: 500");
}

#[test]
fn test_parse_gameflow_phase_strips_quotes() {
    assert_eq!(parse_gameflow_phase("\"ChampSelect\""), "ChampSelect");
    assert_eq!(parse_gameflow_phase("Lobby"), "Lobby");
    assert_eq!(parse_gameflow_phase("\"\""), "");
    assert_eq!(parse_gameflow_phase(""), "");
}

#[test]
fn test_parse_summoner_info_fields_and_defaults() {
    let v = cobj(vec![
        ("summonerId", JsonValue::Str("12345".to_string())),
        ("puuid", JsonValue::Str("abc-def".to_string())),
        ("summonerLevel", JsonValue::Int(250)),
        ("profileIconId", JsonValue::Int(4568)),
    ]);
    let s = parse_summoner_info(&v);
    assert_eq!(s.summoner_id, "12345");
    assert_eq!(s.account_id, "");
    assert_eq!(s.puuid, "abc-def");
    assert_eq!(s.display_name, "Unknown");
    assert_eq!(s.summoner_level, 250);
    assert_eq!(s.profile_icon_id, 4568);
    assert_eq!(s.xp_since_last_level, 0);
}

#[test]
fn test_parse_ranked_stats_filters_queues() {
    let v = cobj(vec![(
        "queues",
        JsonValue::Arr(vec![
            cobj(vec![
                ("queueType", JsonValue::Str("RANKED_SOLO_5x5".to_string())),
                ("tier", JsonValue::Str("GOLD".to_string())),
                ("division", JsonValue::Str("II".to_string())),
                ("leaguePoints", JsonValue::Int(57)),
                ("wins", JsonValue::Int(40)),
                ("losses", JsonValue::Int(35)),
            ]),
            cobj(vec![
                ("queueType", JsonValue::Str("RANKED_FLEX_SR".to_string())),
                ("tier", JsonValue::Str("NONE".to_string())),
            ]),
            cobj(vec![
                ("queueType", JsonValue::Str("RANKED_TFT".to_string())),
                ("tier", JsonValue::Str("SILVER".to_string())),
            ]),
            cobj(vec![("tier", JsonValue::Str("IRON".to_string()))]),
        ]),
    )]);
    let stats = parse_ranked_stats(&v);
    assert_eq!(stats.len(), 1);
    assert_eq!(stats[0].queue_type, "RANKED_SOLO_5x5");
    assert_eq!(stats[0].tier, "GOLD");
    assert_eq!(stats[0].rank, "II");
    assert_eq!(stats[0].league_points, 57);
    assert_eq!(stats[0].wins, 40);
    assert_eq!(stats[0].losses, 35);
}

#[test]
fn test_parse_ranked_stats_unranked_default_is_kept() {
    // a missing tier defaults to UNRANKED, which is not the NONE sentinel
    let v = cobj(vec![(
        "queues",
        JsonValue::Arr(vec![cobj(vec![(
            "queueType",
            JsonValue::Str("RANKED_FLEX_SR".to_string()),
        )])]),
    )]);
    let stats = parse_ranked_stats(&v);
    assert_eq!(stats.len(), 1);
    assert_eq!(stats[0].tier, "UNRANKED");
    assert_eq!(stats[0].rank, "");
}

fn match_game(puuid: &str, win: &str) -> JsonValue {
    cobj(vec![
        ("gameId", JsonValue::Int(111)),
        ("queueId", JsonValue::Int(420)),
        ("gameMode", JsonValue::Str("CLASSIC".to_string())),
        ("gameCreation", JsonValue::Int(1700000000000)),
        ("gameDuration", JsonValue::Int(1890)),
        (
            "participantIdentities",
            JsonValue::Arr(vec![
                cobj(vec![
                    ("participantId", JsonValue::Int(1)),
                    ("player", cobj(vec![("puuid", JsonValue::Str("other".to_string()))])),
                ]),
                cobj(vec![
                    ("participantId", JsonValue::Int(2)),
                    ("player", cobj(vec![("puuid", JsonValue::Str(puuid.to_string()))])),
                ]),
            ]),
        ),
        (
            "participants",
            JsonValue::Arr(vec![
                cobj(vec![
                    ("participantId", JsonValue::Int(2)),
                    ("championId", JsonValue::Int(103)),
                    (
                        "stats",
                        cobj(vec![
                            ("win", JsonValue::Str(win.to_string())),
                            ("kills", JsonValue::Int(7)),
                            ("deaths", JsonValue::Int(2)),
                            ("assists", JsonValue::Int(11)),
                        ]),
                    ),
                ]),
                cobj(vec![("participantId", JsonValue::Int(1))]),
            ]),
        ),
    ])
}

#[test]
fn test_parse_match_history_extracts_player_line() {
    let v = cobj(vec![(
        "games",
        cobj(vec![("games", JsonValue::Arr(vec![match_game("me-uuid", "Win")]))]),
    )]);
    let games = parse_match_history(&v, "me-uuid");
    assert_eq!(games.len(), 1);
    let g = &games[0];
    assert_eq!(g.game_id, 111);
    assert_eq!(g.queue_id, 420);
    assert_eq!(g.champion_id, 103);
    assert_eq!(g.game_mode, "CLASSIC");
    assert_eq!(g.game_duration, 1890);
    assert!(g.win);
    assert_eq!(g.kills, 7);
    assert_eq!(g.deaths, 2);
    assert_eq!(g.assists, 11);
}

#[test]
fn test_parse_match_history_trims_to_five() {
    let games: Vec<JsonValue> = (0..8).map(|_| match_game("me-uuid", "Fail")).collect();
    let v = cobj(vec![("games", JsonValue::Arr(games))]);
    let result = parse_match_history(&v, "me-uuid");
    assert_eq!(result.len(), 5);
    assert!(!result[0].win);
}

#[test]
fn test_parse_match_history_skips_foreign_games() {
    let v = cobj(vec![("games", JsonValue::Arr(vec![match_game("somebody-else", "Win")]))]);
    let result = parse_match_history(&v, "me-uuid");
    assert_eq!(result.len(), 0);
    assert_eq!(parse_match_history(&JsonValue::Null, "me-uuid").len(), 0);
}
