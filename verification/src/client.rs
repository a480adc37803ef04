//! The session client's core: the data the local API's responses reduce
//! to, and the credential/retry flow every fetch operation follows.
//!
//! Every fetch resolves credentials lazily, issues its request, and on
//! any failure discards the cached credentials and retries the whole
//! operation exactly once with freshly resolved ones. A failure to
//! resolve credentials at all is surfaced at once, with no retry.

use vstd::prelude::*;

use crate::json::{
    field_i64_or_zero, field_str_or, opt_as_array, opt_as_i64, opt_as_str, opt_get, spec_get,
    JsonValue,
};
use crate::lockfile::LockfileData;

verus! {

/// The outcome of a connection test.
#[derive(Debug, Clone)]
pub struct ConnectionStatus {
    pub connected: bool,
    pub error: Option<String>,
}

/// The signed-in player, reduced from the current-summoner response.
#[derive(Debug, Clone)]
pub struct SummonerInfo {
    pub summoner_id: String,
    pub account_id: String,
    pub puuid: String,
    pub display_name: String,
    pub summoner_level: i64,
    pub profile_icon_id: i64,
    pub xp_since_last_level: i64,
    pub xp_until_next_level: i64,
}

/// One ranked queue's standing.
#[derive(Debug, Clone)]
pub struct RankedStats {
    pub queue_type: String,
    pub tier: String,
    pub rank: String,
    pub league_points: i32,
    pub wins: i32,
    pub losses: i32,
}

/// One recent game, reduced to the calling player's line.
#[derive(Debug, Clone)]
pub struct MatchHistoryGame {
    pub game_id: i64,
    pub queue_id: i32,
    pub champion_id: i32,
    pub game_mode: String,
    pub game_creation: i64,
    pub game_duration: i32,
    pub win: bool,
    pub kills: i32,
    pub deaths: i32,
    pub assists: i32,
}

#[verifier::ext_equal]
pub struct SummonerModel {
    pub summoner_id: Seq<char>,
    pub account_id: Seq<char>,
    pub puuid: Seq<char>,
    pub display_name: Seq<char>,
    pub summoner_level: i64,
    pub profile_icon_id: i64,
    pub xp_since_last_level: i64,
    pub xp_until_next_level: i64,
}

#[verifier::ext_equal]
pub struct RankedModel {
    pub queue_type: Seq<char>,
    pub tier: Seq<char>,
    pub rank: Seq<char>,
    pub league_points: i32,
    pub wins: i32,
    pub losses: i32,
}

#[verifier::ext_equal]
pub struct MatchModel {
    pub game_id: i64,
    pub queue_id: i32,
    pub champion_id: i32,
    pub game_mode: Seq<char>,
    pub game_creation: i64,
    pub game_duration: i32,
    pub win: bool,
    pub kills: i32,
    pub deaths: i32,
    pub assists: i32,
}

impl View for SummonerInfo {
    type V = SummonerModel;

    open spec fn view(&self) -> SummonerModel {
        SummonerModel {
            summoner_id: self.summoner_id@,
            account_id: self.account_id@,
            puuid: self.puuid@,
            display_name: self.display_name@,
            summoner_level: self.summoner_level,
            profile_icon_id: self.profile_icon_id,
            xp_since_last_level: self.xp_since_last_level,
            xp_until_next_level: self.xp_until_next_level,
        }
    }
}

impl View for RankedStats {
    type V = RankedModel;

    open spec fn view(&self) -> RankedModel {
        RankedModel {
            queue_type: self.queue_type@,
            tier: self.tier@,
            rank: self.rank@,
            league_points: self.league_points,
            wins: self.wins,
            losses: self.losses,
        }
    }
}

impl View for MatchHistoryGame {
    type V = MatchModel;

    open spec fn view(&self) -> MatchModel {
        MatchModel {
            game_id: self.game_id,
            queue_id: self.queue_id,
            champion_id: self.champion_id,
            game_mode: self.game_mode@,
            game_creation: self.game_creation,
            game_duration: self.game_duration,
            win: self.win,
            kills: self.kills,
            deaths: self.deaths,
            assists: self.assists,
        }
    }
}

pub open spec fn ranked_views(s: Seq<RankedStats>) -> Seq<RankedModel> {
    s.map(|i: int, r: RankedStats| r@)
}

pub open spec fn match_views(s: Seq<MatchHistoryGame>) -> Seq<MatchModel> {
    s.map(|i: int, g: MatchHistoryGame| g@)
}

/// A string field with a default, at the spec level.
pub open spec fn spec_str_or(v: JsonValue, key: Seq<char>, default: Seq<char>) -> Seq<char> {
    match opt_as_str(spec_get(v, key)) {
        Some(s) => s,
        None => default,
    }
}

/// An integer field defaulting to zero, at the spec level.
pub open spec fn spec_i64_or_zero(v: JsonValue, key: Seq<char>) -> i64 {
    match opt_as_i64(spec_get(v, key)) {
        Some(n) => n,
        None => 0,
    }
}

/// Truncation to `i32`, the narrowing the response's wide counters go
/// through.
pub open spec fn trunc_i32(x: i64) -> i32 {
    x as i32
}

fn cast_i32(x: i64) -> (r: i32)
    ensures
        r == trunc_i32(x),
{
    #[verifier::truncate]
    (x as i32)
}

/// A response body with its leading double quotes removed.
pub open spec fn quote_trim_start(s: Seq<char>) -> Seq<char>
    decreases s.len(),
{
    if s.len() > 0 && s[0] == '"' {
        quote_trim_start(s.drop_first())
    } else {
        s
    }
}

/// A response body with its trailing double quotes removed.
pub open spec fn quote_trim_end(s: Seq<char>) -> Seq<char>
    decreases s.len(),
{
    if s.len() > 0 && s.last() == '"' {
        quote_trim_end(s.drop_last())
    } else {
        s
    }
}

/// What the gameflow-phase body reduces to: the phase name without the
/// double quotes that surround the JSON-encoded string.
pub open spec fn spec_gameflow_phase(body: Seq<char>) -> Seq<char> {
    quote_trim_end(quote_trim_start(body))
}

proof fn lemma_quote_trim_start_skip(s: Seq<char>, a: int)
    requires
        0 <= a <= s.len(),
        forall|j: int| 0 <= j < a ==> s[j] == '"',
        a == s.len() || s[a] != '"',
    ensures
        quote_trim_start(s) == s.skip(a),
    decreases a,
{
    if a == 0 {
        assert(s.skip(0) =~= s);
    } else {
        lemma_quote_trim_start_skip(s.drop_first(), a - 1);
        assert(s.drop_first().skip(a - 1) =~= s.skip(a));
    }
}

proof fn lemma_quote_trim_end_take(s: Seq<char>, b: int)
    requires
        0 <= b <= s.len(),
        forall|j: int| b <= j < s.len() ==> s[j] == '"',
        b == 0 || s[b - 1] != '"',
    ensures
        quote_trim_end(s) == s.take(b),
    decreases s.len() - b,
{
    if b == s.len() {
        assert(s.take(b) =~= s);
    } else {
        lemma_quote_trim_end_take(s.drop_last(), b);
        assert(s.drop_last().take(b) =~= s.take(b));
    }
}

/// Reduce the gameflow-phase response body: strip the double quotes that
/// surround the JSON-encoded phase name.
pub fn parse_gameflow_phase(body: &str) -> (r: String)
    ensures
        r@ == spec_gameflow_phase(body@),
{
    let n = body.unicode_len();
    let mut a: usize = 0;
    while a < n && body.get_char(a) == '"'
        invariant
            a <= n,
            n == body@.len(),
            forall|j: int| 0 <= j < a ==> body@[j] == '"',
        decreases n - a,
    {
        a += 1;
    }
    proof {
        lemma_quote_trim_start_skip(body@, a as int);
    }
    let mut b: usize = n;
    while b > a && body.get_char(b - 1) == '"'
        invariant
            a <= b <= n,
            n == body@.len(),
            forall|j: int| b <= j < n ==> body@[j] == '"',
        decreases b,
    {
        b -= 1;
    }
    proof {
        let t = body@.skip(a as int);
        lemma_quote_trim_end_take(t, b - a as int);
        assert(t.take(b - a as int) =~= body@.subrange(a as int, b as int));
    }
    body.substring_char(a, b).to_owned()
}

/// What the current-summoner response reduces to: every field has its
/// fallback, the display name's being `Unknown`.
pub open spec fn spec_summoner(v: JsonValue) -> SummonerModel {
    SummonerModel {
        summoner_id: spec_str_or(v, "summonerId"@, ""@),
        account_id: spec_str_or(v, "accountId"@, ""@),
        puuid: spec_str_or(v, "puuid"@, ""@),
        display_name: spec_str_or(v, "displayName"@, "Unknown"@),
        summoner_level: spec_i64_or_zero(v, "summonerLevel"@),
        profile_icon_id: spec_i64_or_zero(v, "profileIconId"@),
        xp_since_last_level: spec_i64_or_zero(v, "xpSinceLastLevel"@),
        xp_until_next_level: spec_i64_or_zero(v, "xpUntilNextLevel"@),
    }
}

/// Reduce the current-summoner response document.
pub fn parse_summoner_info(v: &JsonValue) -> (r: SummonerInfo)
    ensures
        r@ == spec_summoner(*v),
{
    let r = SummonerInfo {
        summoner_id: field_str_or(v, "summonerId", ""),
        account_id: field_str_or(v, "accountId", ""),
        puuid: field_str_or(v, "puuid", ""),
        display_name: field_str_or(v, "displayName", "Unknown"),
        summoner_level: field_i64_or_zero(v, "summonerLevel"),
        profile_icon_id: field_i64_or_zero(v, "profileIconId"),
        xp_since_last_level: field_i64_or_zero(v, "xpSinceLastLevel"),
        xp_until_next_level: field_i64_or_zero(v, "xpUntilNextLevel"),
    };
    proof {
        assert(r@ =~= spec_summoner(*v));
    }
    r
}

/// What one queue entry contributes: kept only when it names one of the
/// two ranked queues and its tier is not the unranked sentinel.
pub open spec fn spec_ranked_entry(q: JsonValue) -> Option<RankedModel> {
    match opt_as_str(spec_get(q, "queueType"@)) {
        None => None,
        Some(qt) => {
            let tier = spec_str_or(q, "tier"@, "UNRANKED"@);
            if tier != "NONE"@ && (qt == "RANKED_SOLO_5x5"@ || qt == "RANKED_FLEX_SR"@) {
                Some(
                    RankedModel {
                        queue_type: qt,
                        tier,
                        rank: spec_str_or(q, "division"@, ""@),
                        league_points: trunc_i32(spec_i64_or_zero(q, "leaguePoints"@)),
                        wins: trunc_i32(spec_i64_or_zero(q, "wins"@)),
                        losses: trunc_i32(spec_i64_or_zero(q, "losses"@)),
                    },
                )
            } else {
                None
            }
        },
    }
}

pub open spec fn spec_ranked_list(qs: Seq<JsonValue>) -> Seq<RankedModel>
    decreases qs.len(),
{
    if qs.len() == 0 {
        Seq::empty()
    } else {
        let rest = spec_ranked_list(qs.drop_last());
        match spec_ranked_entry(qs.last()) {
            Some(m) => rest.push(m),
            None => rest,
        }
    }
}

pub open spec fn spec_ranked(v: JsonValue) -> Seq<RankedModel> {
    match opt_as_array(spec_get(v, "queues"@)) {
        Some(qs) => spec_ranked_list(qs),
        None => Seq::empty(),
    }
}

fn parse_ranked_entry(q: &JsonValue) -> (r: Option<RankedStats>)
    ensures
        match r {
            Some(m) => spec_ranked_entry(*q) == Some(m@),
            None => spec_ranked_entry(*q) is None,
        },
{
    let qt = match q.get("queueType") {
        Some(u) => match u.as_string() {
            Some(s) => s.clone(),
            None => {
                return None;
            },
        },
        None => {
            return None;
        },
    };
    let tier = field_str_or(q, "tier", "UNRANKED");
    let is_ranked_queue = crate::text::str_eq(qt.as_str(), "RANKED_SOLO_5x5")
        || crate::text::str_eq(qt.as_str(), "RANKED_FLEX_SR");
    if !crate::text::str_eq(tier.as_str(), "NONE") && is_ranked_queue {
        let m = RankedStats {
            queue_type: qt,
            tier,
            rank: field_str_or(q, "division", ""),
            league_points: cast_i32(field_i64_or_zero(q, "leaguePoints")),
            wins: cast_i32(field_i64_or_zero(q, "wins")),
            losses: cast_i32(field_i64_or_zero(q, "losses")),
        };
        proof {
            assert(m@ =~= spec_ranked_entry(*q)->Some_0);
        }
        Some(m)
    } else {
        None
    }
}

/// Reduce the ranked-stats response: the standings of the two ranked
/// queues, skipping unranked tiers.
pub fn parse_ranked_stats(v: &JsonValue) -> (r: Vec<RankedStats>)
    ensures
        ranked_views(r@) == spec_ranked(*v),
{
    let mut out: Vec<RankedStats> = Vec::new();
    let queues = match v.get("queues") {
        Some(u) => match u.as_array() {
            Some(a) => a,
            None => {
                proof {
                    assert(ranked_views(out@) =~= spec_ranked(*v));
                }
                return out;
            },
        },
        None => {
            proof {
                assert(ranked_views(out@) =~= spec_ranked(*v));
            }
            return out;
        },
    };
    let n = queues.len();
    let mut i: usize = 0;
    proof {
        assert(queues@.take(0) =~= Seq::<JsonValue>::empty());
        assert(ranked_views(out@) =~= spec_ranked_list(queues@.take(0)));
    }
    while i < n
        invariant
            i <= n,
            n == queues@.len(),
            ranked_views(out@) == spec_ranked_list(queues@.take(i as int)),
        decreases n - i,
    {
        proof {
            assert(queues@.take(i as int + 1).drop_last() =~= queues@.take(i as int));
            assert(queues@.take(i as int + 1).last() == queues@[i as int]);
        }
        let ghost prev = out@;
        match parse_ranked_entry(&queues[i]) {
            Some(m) => {
                let ghost mm = m@;
                out.push(m);
                proof {
                    assert(ranked_views(out@) =~= ranked_views(prev).push(mm));
                    assert(ranked_views(out@) =~= spec_ranked_list(queues@.take(i as int + 1)));
                }
            },
            None => {
                proof {
                    assert(ranked_views(out@) =~= spec_ranked_list(queues@.take(i as int + 1)));
                }
            },
        }
        i += 1;
    }
    proof {
        assert(queues@.take(n as int) =~= queues@);
    }
    out
}

/// The first participant identity whose player carries the given puuid.
pub open spec fn spec_find_identity(ids: Seq<JsonValue>, puuid: Seq<char>) -> Option<JsonValue>
    decreases ids.len(),
{
    if ids.len() == 0 {
        None
    } else if opt_as_str(opt_get(spec_get(ids[0], "player"@), "puuid"@)) == Some(puuid) {
        Some(ids[0])
    } else {
        spec_find_identity(ids.drop_first(), puuid)
    }
}

/// The first participant entry with the given participant id.
pub open spec fn spec_find_participant(ps: Seq<JsonValue>, pid: i64) -> Option<JsonValue>
    decreases ps.len(),
{
    if ps.len() == 0 {
        None
    } else if spec_i64_or_zero(ps[0], "participantId"@) == pid {
        Some(ps[0])
    } else {
        spec_find_participant(ps.drop_first(), pid)
    }
}

/// What one game entry reduces to for the given player, when their
/// identity and stats can both be found in it.
pub open spec fn spec_game_record(g: JsonValue, puuid: Seq<char>) -> Option<MatchModel> {
    match opt_as_array(spec_get(g, "participantIdentities"@)) {
        None => None,
        Some(ids) => match spec_find_identity(ids, puuid) {
            None => None,
            Some(identity) => {
                let pid = spec_i64_or_zero(identity, "participantId"@);
                match opt_as_array(spec_get(g, "participants"@)) {
                    None => None,
                    Some(ps) => match spec_find_participant(ps, pid) {
                        None => None,
                        Some(p) => {
                            let stats = spec_get(p, "stats"@);
                            Some(
                                MatchModel {
                                    game_id: spec_i64_or_zero(g, "gameId"@),
                                    queue_id: trunc_i32(spec_i64_or_zero(g, "queueId"@)),
                                    champion_id: trunc_i32(spec_i64_or_zero(p, "championId"@)),
                                    game_mode: spec_str_or(g, "gameMode"@, ""@),
                                    game_creation: spec_i64_or_zero(g, "gameCreation"@),
                                    game_duration: trunc_i32(spec_i64_or_zero(g, "gameDuration"@)),
                                    win: opt_as_str(opt_get(stats, "win"@)) == Some("Win"@),
                                    kills: trunc_i32(stat_or_zero(stats, "kills"@)),
                                    deaths: trunc_i32(stat_or_zero(stats, "deaths"@)),
                                    assists: trunc_i32(stat_or_zero(stats, "assists"@)),
                                },
                            )
                        },
                    },
                }
            },
        },
    }
}

pub open spec fn stat_or_zero(stats: Option<JsonValue>, key: Seq<char>) -> i64 {
    match opt_as_i64(opt_get(stats, key)) {
        Some(n) => n,
        None => 0,
    }
}

pub open spec fn spec_match_list(gs: Seq<JsonValue>, puuid: Seq<char>) -> Seq<MatchModel>
    decreases gs.len(),
{
    if gs.len() == 0 {
        Seq::empty()
    } else {
        let rest = spec_match_list(gs.drop_last(), puuid);
        match spec_game_record(gs.last(), puuid) {
            Some(m) => rest.push(m),
            None => rest,
        }
    }
}

/// The games array of the match-history response, under either of the
/// shapes the service has shipped.
pub open spec fn spec_games_array(v: JsonValue) -> Option<Seq<JsonValue>> {
    match opt_as_array(opt_get(spec_get(v, "games"@), "games"@)) {
        Some(a) => Some(a),
        None => opt_as_array(spec_get(v, "games"@)),
    }
}

/// What the match-history response reduces to for the given player: at
/// most the first five games, each reduced to the player's line.
pub open spec fn spec_match_history(v: JsonValue, puuid: Seq<char>) -> Seq<MatchModel> {
    match spec_games_array(v) {
        None => Seq::empty(),
        Some(gs) => spec_match_list(
            if gs.len() > 5 {
                gs.take(5)
            } else {
                gs
            },
            puuid,
        ),
    }
}

fn find_identity<'a>(ids: &'a Vec<JsonValue>, puuid: &str) -> (r: Option<&'a JsonValue>)
    ensures
        match r {
            Some(u) => spec_find_identity(ids@, puuid@) == Some(*u),
            None => spec_find_identity(ids@, puuid@) is None,
        },
{
    let n = ids.len();
    let mut i: usize = 0;
    proof {
        assert(ids@.skip(0) =~= ids@);
    }
    while i < n
        invariant
            i <= n,
            n == ids@.len(),
            spec_find_identity(ids@, puuid@) == spec_find_identity(ids@.skip(i as int), puuid@),
        decreases n - i,
    {
        proof {
            assert(ids@.skip(i as int).drop_first() =~= ids@.skip(i as int + 1));
            assert(ids@.skip(i as int)[0] == ids@[i as int]);
        }
        let player_puuid = match crate::json::opt_field(ids[i].get("player"), "puuid") {
            Some(u) => u.as_string(),
            None => None,
        };
        let matches_puuid = match player_puuid {
            Some(s) => crate::text::str_eq(s.as_str(), puuid),
            None => false,
        };
        if matches_puuid {
            return Some(&ids[i]);
        }
        i += 1;
    }
    proof {
        assert(ids@.skip(n as int) =~= Seq::<JsonValue>::empty());
    }
    None
}

fn find_participant<'a>(ps: &'a Vec<JsonValue>, pid: i64) -> (r: Option<&'a JsonValue>)
    ensures
        match r {
            Some(u) => spec_find_participant(ps@, pid) == Some(*u),
            None => spec_find_participant(ps@, pid) is None,
        },
{
    let n = ps.len();
    let mut i: usize = 0;
    proof {
        assert(ps@.skip(0) =~= ps@);
    }
    while i < n
        invariant
            i <= n,
            n == ps@.len(),
            spec_find_participant(ps@, pid) == spec_find_participant(ps@.skip(i as int), pid),
        decreases n - i,
    {
        proof {
            assert(ps@.skip(i as int).drop_first() =~= ps@.skip(i as int + 1));
            assert(ps@.skip(i as int)[0] == ps@[i as int]);
        }
        if field_i64_or_zero(&ps[i], "participantId") == pid {
            return Some(&ps[i]);
        }
        i += 1;
    }
    proof {
        assert(ps@.skip(n as int) =~= Seq::<JsonValue>::empty());
    }
    None
}

fn parse_game_record(g: &JsonValue, puuid: &str) -> (r: Option<MatchHistoryGame>)
    ensures
        match r {
            Some(m) => spec_game_record(*g, puuid@) == Some(m@),
            None => spec_game_record(*g, puuid@) is None,
        },
{
    let ids = match g.get("participantIdentities") {
        Some(u) => match u.as_array() {
            Some(a) => a,
            None => {
                return None;
            },
        },
        None => {
            return None;
        },
    };
    let identity = match find_identity(ids, puuid) {
        Some(idj) => idj,
        None => {
            return None;
        },
    };
    let pid = field_i64_or_zero(identity, "participantId");
    let ps = match g.get("participants") {
        Some(u) => match u.as_array() {
            Some(a) => a,
            None => {
                return None;
            },
        },
        None => {
            return None;
        },
    };
    let p = match find_participant(ps, pid) {
        Some(p) => p,
        None => {
            return None;
        },
    };
    let stats = p.get("stats");
    let win_str = match crate::json::opt_field(stats, "win") {
        Some(u) => u.as_string(),
        None => None,
    };
    let win = match win_str {
        Some(s) => crate::text::str_eq(s.as_str(), "Win"),
        None => false,
    };
    let kills = match crate::json::opt_field(stats, "kills") {
        Some(u) => match u.as_i64() {
            Some(n) => n,
            None => 0,
        },
        None => 0,
    };
    let deaths = match crate::json::opt_field(stats, "deaths") {
        Some(u) => match u.as_i64() {
            Some(n) => n,
            None => 0,
        },
        None => 0,
    };
    let assists = match crate::json::opt_field(stats, "assists") {
        Some(u) => match u.as_i64() {
            Some(n) => n,
            None => 0,
        },
        None => 0,
    };
    let m = MatchHistoryGame {
        game_id: field_i64_or_zero(g, "gameId"),
        queue_id: cast_i32(field_i64_or_zero(g, "queueId")),
        champion_id: cast_i32(field_i64_or_zero(p, "championId")),
        game_mode: field_str_or(g, "gameMode", ""),
        game_creation: field_i64_or_zero(g, "gameCreation"),
        game_duration: cast_i32(field_i64_or_zero(g, "gameDuration")),
        win,
        kills: cast_i32(kills),
        deaths: cast_i32(deaths),
        assists: cast_i32(assists),
    };
    proof {
        assert(m@ =~= spec_game_record(*g, puuid@)->Some_0);
    }
    Some(m)
}

/// Reduce the match-history response for the given player: at most the
/// first five games, each reduced to the player's own line.
pub fn parse_match_history(v: &JsonValue, puuid: &str) -> (r: Vec<MatchHistoryGame>)
    ensures
        match_views(r@) == spec_match_history(*v, puuid@),
{
    let mut out: Vec<MatchHistoryGame> = Vec::new();
    let games = match v.get("games") {
        Some(u) => match u.get("games") {
            Some(inner) => match inner.as_array() {
                Some(a) => Some(a),
                None => u.as_array(),
            },
            None => u.as_array(),
        },
        None => None,
    };
    let games = match games {
        Some(a) => a,
        None => {
            proof {
                assert(match_views(out@) =~= spec_match_history(*v, puuid@));
            }
            return out;
        },
    };
    let n = if games.len() > 5 {
        5
    } else {
        games.len()
    };
    let ghost gs = if games@.len() > 5 {
        games@.take(5)
    } else {
        games@
    };
    let mut i: usize = 0;
    proof {
        assert(gs.take(0) =~= Seq::<JsonValue>::empty());
        assert(match_views(out@) =~= spec_match_list(gs.take(0), puuid@));
    }
    while i < n
        invariant
            i <= n,
            n == gs.len(),
            n <= games@.len(),
            gs == (if games@.len() > 5 {
                games@.take(5)
            } else {
                games@
            }),
            forall|j: int| 0 <= j < n ==> gs[j] == games@[j],
            match_views(out@) == spec_match_list(gs.take(i as int), puuid@),
        decreases n - i,
    {
        proof {
            assert(gs.take(i as int + 1).drop_last() =~= gs.take(i as int));
            assert(gs.take(i as int + 1).last() == gs[i as int]);
        }
        let ghost prev = out@;
        match parse_game_record(&games[i], puuid) {
            Some(m) => {
                let ghost mm = m@;
                out.push(m);
                proof {
                    assert(match_views(out@) =~= match_views(prev).push(mm));
                    assert(match_views(out@) =~= spec_match_list(gs.take(i as int + 1), puuid@));
                }
            },
            None => {
                proof {
                    assert(match_views(out@) =~= spec_match_list(gs.take(i as int + 1), puuid@));
                }
            },
        }
        i += 1;
    }
    proof {
        assert(gs.take(n as int) =~= gs);
    }
    out
}

/// The events the driver of a fetch operation reports back.
#[derive(Debug, Clone)]
pub enum FetchEvent {
    /// Credential resolution succeeded.
    ResolveOk(LockfileData),
    /// Credential resolution failed; its error message.
    ResolveFailed(String),
    /// The request went through with a well-formed response.
    RequestOk,
    /// The request failed: transport, status, or decoding; its message.
    RequestFailed(String),
}

/// How a fetch operation ends.
#[derive(Debug, Clone)]
pub enum FlowOutcome {
    /// The request went through; these credentials proved valid.
    Success { creds: LockfileData },
    /// No credentials could be resolved; surfaced at once, no retry.
    NoCredentials { error: String },
    /// Both attempts failed; the second attempt's error.
    RequestFailed { error: String },
}

/// The state of one fetch operation.
#[derive(Debug, Clone)]
pub enum FlowStep {
    /// Credentials must be resolved before a request can be made.
    EnsureCredentials { second_attempt: bool },
    /// A request is due with these credentials.
    Request { creds: LockfileData, second_attempt: bool },
    /// The operation ended.
    Done { outcome: FlowOutcome },
}

/// Which events a step can digest.
pub open spec fn event_fits(f: FlowStep, e: FetchEvent) -> bool {
    match f {
        FlowStep::EnsureCredentials { .. } => e is ResolveOk || e is ResolveFailed,
        FlowStep::Request { .. } => e is RequestOk || e is RequestFailed,
        FlowStep::Done { .. } => false,
    }
}

/// The transition of the fetch flow. A first failed request invalidates
/// the credentials and leads to fresh resolution; a second failure, or a
/// resolution failure at any point, ends the operation.
pub open spec fn flow_next(f: FlowStep, e: FetchEvent) -> FlowStep {
    match (f, e) {
        (FlowStep::EnsureCredentials { second_attempt }, FetchEvent::ResolveOk(c)) => {
            FlowStep::Request { creds: c, second_attempt }
        },
        (FlowStep::EnsureCredentials { .. }, FetchEvent::ResolveFailed(msg)) => {
            FlowStep::Done { outcome: FlowOutcome::NoCredentials { error: msg } }
        },
        (FlowStep::Request { creds, .. }, FetchEvent::RequestOk) => {
            FlowStep::Done { outcome: FlowOutcome::Success { creds } }
        },
        (FlowStep::Request { second_attempt: false, .. }, FetchEvent::RequestFailed(_)) => {
            FlowStep::EnsureCredentials { second_attempt: true }
        },
        (FlowStep::Request { second_attempt: true, .. }, FetchEvent::RequestFailed(msg)) => {
            FlowStep::Done { outcome: FlowOutcome::RequestFailed { error: msg } }
        },
        _ => f,
    }
}

/// Begin a fetch operation: cached credentials go straight to a request;
/// otherwise they are resolved first.
pub fn flow_start(cached: Option<LockfileData>) -> (f: FlowStep)
    ensures
        match cached {
            Some(c) => f == FlowStep::Request { creds: c, second_attempt: false },
            None => f == (FlowStep::EnsureCredentials { second_attempt: false }),
        },
{
    match cached {
        Some(c) => FlowStep::Request { creds: c, second_attempt: false },
        None => FlowStep::EnsureCredentials { second_attempt: false },
    }
}

/// Digest one event of the driver.
pub fn flow_step(f: FlowStep, e: FetchEvent) -> (r: FlowStep)
    requires
        event_fits(f, e),
    ensures
        r == flow_next(f, e),
{
    match (f, e) {
        (FlowStep::EnsureCredentials { second_attempt }, FetchEvent::ResolveOk(c)) => {
            FlowStep::Request { creds: c, second_attempt }
        },
        (FlowStep::EnsureCredentials { second_attempt }, FetchEvent::ResolveFailed(msg)) => {
            FlowStep::Done { outcome: FlowOutcome::NoCredentials { error: msg } }
        },
        (FlowStep::Request { creds, second_attempt }, FetchEvent::RequestOk) => {
            FlowStep::Done { outcome: FlowOutcome::Success { creds } }
        },
        (FlowStep::Request { creds, second_attempt: false }, FetchEvent::RequestFailed(msg)) => {
            FlowStep::EnsureCredentials { second_attempt: true }
        },
        (FlowStep::Request { creds, second_attempt: true }, FetchEvent::RequestFailed(msg)) => {
            FlowStep::Done { outcome: FlowOutcome::RequestFailed { error: msg } }
        },
        (f, _) => f,
    }
}

/// What the client caches once a fetch ends: the credentials that just
/// worked, or nothing after any failure — they are invalidated wholesale.
pub open spec fn spec_cached_after(o: FlowOutcome) -> Option<LockfileData> {
    match o {
        FlowOutcome::Success { creds } => Some(creds),
        _ => None,
    }
}

pub fn cached_after(o: FlowOutcome) -> (r: Option<LockfileData>)
    ensures
        r == spec_cached_after(o),
{
    match o {
        FlowOutcome::Success { creds } => Some(creds),
        _ => None,
    }
}

/// The retry policy, end to end: an operation whose first request fails
/// and whose retry — after fresh resolution — succeeds, ends in success
/// with no visible error; one whose both requests fail ends in exactly
/// one terminal error, the second attempt's. A resolution failure ends
/// the operation at once.
pub proof fn lemma_retry_policy(
    cached: LockfileData,
    err1: String,
    fresh: LockfileData,
    err2: String,
)
    ensures
        flow_next(
            flow_next(
                flow_next(
                    FlowStep::Request { creds: cached, second_attempt: false },
                    FetchEvent::RequestFailed(err1),
                ),
                FetchEvent::ResolveOk(fresh),
            ),
            FetchEvent::RequestOk,
        ) == (FlowStep::Done { outcome: FlowOutcome::Success { creds: fresh } }),
        flow_next(
            flow_next(
                flow_next(
                    FlowStep::Request { creds: cached, second_attempt: false },
                    FetchEvent::RequestFailed(err1),
                ),
                FetchEvent::ResolveOk(fresh),
            ),
            FetchEvent::RequestFailed(err2),
        ) == (FlowStep::Done { outcome: FlowOutcome::RequestFailed { error: err2 } }),
        flow_next(
            FlowStep::EnsureCredentials { second_attempt: false },
            FetchEvent::ResolveFailed(err1),
        ) == (FlowStep::Done { outcome: FlowOutcome::NoCredentials { error: err1 } }),
{
}

/// The connection status an outcome of the gameflow probe reports.
pub fn connection_status_of(outcome: FlowOutcome) -> (r: ConnectionStatus)
    ensures
        match outcome {
            FlowOutcome::Success { .. } => r.connected && r.error is None,
            FlowOutcome::NoCredentials { error } => !r.connected && match r.error {
                Some(e) => e == error,
                None => false,
            },
            FlowOutcome::RequestFailed { error } => !r.connected && match r.error {
                Some(e) => e@ == "Failed to connect to LCU API: "@ + error@,
                None => false,
            },
        },
{
    match outcome {
        FlowOutcome::Success { .. } => ConnectionStatus { connected: true, error: None },
        FlowOutcome::NoCredentials { error } => ConnectionStatus {
            connected: false,
            error: Some(error),
        },
        FlowOutcome::RequestFailed { error } => {
            let mut msg = "Failed to connect to LCU API: ".to_owned();
            msg.append(error.as_str());
            ConnectionStatus { connected: false, error: Some(msg) }
        },
    }
}

} // verus!
