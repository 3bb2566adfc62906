use wmpvp_rank_overlay::config::MonitorConfig;
use wmpvp_rank_overlay::connection;
use wmpvp_rank_overlay::form::FormService;
use wmpvp_rank_overlay::json::{Json, JsonNumber};
use wmpvp_rank_overlay::kills::{self, KillTracker, MatchPayload, PlayerPayload};
use wmpvp_rank_overlay::monitor;
use wmpvp_rank_overlay::number::Real;
use wmpvp_rank_overlay::rank::{Progress, RankService, RankStatus};
use wmpvp_rank_overlay::session::{self, Frame, Reply, Session, WsEnvelope};
use wmpvp_rank_overlay::state::{self, AppState, MatchState, Player};
use wmpvp_rank_overlay::table;
use wmpvp_rank_overlay::table::Table;
use wmpvp_rank_overlay::wmpvp::{Score, User};

fn dbl(x: f64) -> Real {
    Real { bits: x.to_bits() }
}

fn count(n: u64) -> Json {
    Json::Number(JsonNumber {
        signed: Some(n as i64),
        unsigned: Some(n),
        double: Some(dbl(n as f64)),
    })
}

fn text(s: &str) -> Json {
    Json::Text(s.to_string())
}

fn object(fields: Vec<(&str, Json)>) -> Json {
    Json::Object(rows(fields))
}

fn rows(fields: Vec<(&str, Json)>) -> Vec<(String, Json)> {
    fields.into_iter().map(|(k, v)| (k.to_string(), v)).collect()
}

fn some_player(id: Option<&str>, side: &str, name: Option<&str>) -> PlayerPayload {
    PlayerPayload {
        steam_id: id.map(|s| s.to_string()),
        side: Some(side.to_string()),
        kill: Some(3),
        death: None,
        assist: Some(1),
        adr: Some(dbl(80.5)),
        alive: None,
        rating: None,
        name: name.map(|s| s.to_string()),
    }
}

fn payload(id: &str) -> MatchPayload {
    MatchPayload {
        match_id: Some(id.to_string()),
        map: Some("de_nuke".to_string()),
        ct_score: Some(2),
        t_score: None,
        ct_half: None,
        t_half: Some(1),
        players: vec![
            some_player(Some(" 7656119000000011 "), " ct ", Some("ace")),
            some_player(Some("7656119000000022"), "Terrorist", Some("  ")),
            some_player(Some("  "), "CT", None),
            some_player(None, "CT", None),
        ],
        kill_count: None,
        kill_history: None,
    }
}

fn ranked(id: &str, nick: &str, score: f64) -> User {
    User {
        nickname: Some(nick.to_string()),
        steam_id: Some(id.to_string()),
        avatar: None,
        score: Some(Score::Number(Some(dbl(score)))),
    }
}

#[test]
fn sides_go_by_many_names() {
    assert_eq!(monitor::normalize_side(" ct "), "CT");
    assert_eq!(monitor::normalize_side("Counter-Terrorist"), "CT");
    assert_eq!(monitor::normalize_side("t"), "T");
    assert_eq!(monitor::normalize_side("Terrorist"), "T");
    assert_eq!(monitor::normalize_side("spec"), "SPEC");
    assert_eq!(monitor::normalize_side(""), "");
    assert_eq!(monitor::normalize_side("stra\u{df}e"), "STRASSE");
}

#[test]
fn the_name_of_a_side_is_the_same_however_it_is_written() {
    for s in ["ct", "Terrorist", "counter-terrorists", "Spectator", "t", "", "a b"] {
        let name = monitor::normalize_side(s);
        assert_eq!(monitor::normalize_side(&name), name);
        assert_eq!(monitor::normalize_side(&s.to_lowercase()), name);
        assert_eq!(monitor::normalize_side(&s.to_uppercase()), name);
        assert_eq!(monitor::normalize_side(&format!("\t {s}\u{3000}\r\n")), name);
        assert_eq!(name.trim(), name);
        assert!(!name.contains(|c: char| c.is_ascii_lowercase()));
    }
}

#[test]
fn weapons_lose_their_prefix() {
    assert_eq!(kills::weapon_code("weapon_AK47_VIP"), "ak47_vip");
    assert_eq!(kills::weapon_code(" awp "), "awp");
    assert_eq!(kills::weapon_code("weapon_weapon_ssg08"), "ssg08");
    assert_eq!(kills::weapon_code("\u{c9}P\u{c9}E"), "\u{e9}p\u{e9}e");
    assert_eq!(kills::weapon_code(""), "");
}

#[test]
fn history_entries_go_by_many_names() {
    let h = object(vec![("KillerId", text(" ")), ("killerId", text(" 1 ")), ("deadId", text("2")), ("gun", text("awp"))]);
    let e = kills::hist_entry(&h).unwrap();
    assert_eq!((e.killer.as_str(), e.victim.as_str(), e.weapon.as_str()), ("1", "2", "awp"));
    let h = object(vec![("killer", text("1")), ("victim", text("2"))]);
    assert_eq!(kills::hist_entry(&h).unwrap().weapon, "");
    assert!(kills::hist_entry(&object(vec![("killer", text("1"))])).is_none());
    assert!(kills::hist_entry(&object(vec![("victim", text("1"))])).is_none());
    assert!(kills::hist_entry(&Json::Null).is_none());
}

#[test]
fn new_kills_are_the_growth_of_the_table() {
    let before = rows(vec![
        ("a", object(vec![("x", count(1)), ("y", count(4))])),
        ("b", count(9)),
    ]);
    let now = rows(vec![
        ("a", object(vec![("x", count(3)), ("y", count(2)), ("z", text("?"))])),
        ("b", object(vec![("x", count(1))])),
        ("c", Json::Null),
    ]);
    let pair = |k: &str, v: &str| (k.to_string(), v.to_string());
    assert_eq!(
        kills::new_kills(&now, &before),
        vec![pair("a", "x"), pair("a", "x"), pair("b", "x")]
    );
    assert_eq!(kills::new_kills(&now, &now), vec![]);
}

#[test]
fn every_new_kill_is_told_with_its_weapon_where_known() {
    let history = vec![
        object(vec![("killer", text("a")), ("victim", text("x")), ("weapon", text("weapon_deagle"))]),
        object(vec![("killer", text("q")), ("victim", text("x")), ("weapon", text("knife"))]),
        object(vec![("killer", text("a")), ("victim", text("x")), ("weapon", text("weapon_AWP"))]),
    ];
    let pair = |k: &str, v: &str| (k.to_string(), v.to_string());
    let kills = vec![pair("b", "y"), pair("a", "x")];
    let told: Vec<(String, String, String)> = kills::arm_kills(&history, kills)
        .into_iter()
        .map(|k| (k.killer, k.victim, k.weapon))
        .collect();
    let triple = |a: &str, b: &str, c: &str| (a.to_string(), b.to_string(), c.to_string());
    assert_eq!(told, vec![triple("a", "x", "awp"), triple("b", "y", "")]);
    assert!(kills::arm_kills(&history, vec![]).is_empty());
}

#[test]
fn players_are_found_by_the_end_of_their_id() {
    let p = payload("m");
    assert_eq!(kills::full_steam_id(" 00000022 ", &p), Some("7656119000000022".to_string()));
    assert_eq!(kills::full_steam_id("", &p), None);
    assert_eq!(kills::full_steam_id("77", &p), None);
    let mut ranks = RankService::new();
    assert_eq!(kills::display_name("00000022", &p, &ranks), "00000022");
    ranks.seed_user("7656119000000022", &ranked("7656119000000022", "bob", 1500.0));
    assert_eq!(kills::display_name("00000022", &p, &ranks), "bob");
    assert_eq!(kills::display_name("1234567890", &p, &ranks), "34567890");
}

#[test]
fn the_first_message_tells_nothing_and_the_next_the_difference() {
    let mut ranks = RankService::new();
    ranks.seed_user("7656119000000022", &ranked("7656119000000022", "bob", 1500.0));
    let mut tracker = KillTracker::new();
    let with = |n: u64| {
        let mut p = payload("m");
        p.players[0].steam_id = Some("7656119000000011".to_string());
        p.kill_count = Some(rows(vec![("00000011", object(vec![("00000022", count(n))]))]));
        p.kill_history = Some(vec![object(vec![
            ("KillerId", text("00000011")),
            ("VictimId", text("00000022")),
            ("Weapon", text("weapon_ak47")),
        ])]);
        p
    };
    assert!(kills::log_kills(with(2), &mut tracker, &ranks, "7656119000000011").is_empty());
    assert!(kills::log_kills(with(2), &mut tracker, &ranks, "7656119000000011").is_empty());
    assert!(kills::can_tell_kills(&with(4), &tracker, &ranks));
    let told = kills::log_kills(with(4), &mut tracker, &ranks, " 7656119000000011 ");
    assert_eq!(told.len(), 2);
    assert_eq!(
        told[0].line,
        "[KILL] self=true killer=7656119000000011 killer_name=ace weapon=ak47 victim=7656119000000022 victim_name=bob"
    );
    assert_eq!(told[1].weapon, "");
    assert_eq!(told[1].killer, "ace");
    assert_eq!(told[1].victim, "bob");
    // A message without a table leaves the one before.
    assert!(kills::log_kills(payload("m"), &mut tracker, &ranks, "1").is_empty());
    assert_eq!(kills::log_kills(with(5), &mut tracker, &ranks, "1").len(), 1);
}

#[test]
fn a_run_of_messages_tells_every_growth_once() {
    let ranks = RankService::new();
    let mut tracker = KillTracker::new();
    let with = |n: u64, m: u64| {
        let mut p = payload("m");
        p.kill_count = Some(rows(vec![(
            "00000011",
            object(vec![("00000022", count(n)), ("00000033", count(m))]),
        )]));
        p
    };
    let run = [
        with(1, 0),
        payload("m"),
        with(3, 0),
        with(3, 1),
        with(2, 1),
        payload("m"),
        with(4, 2),
    ];
    let mut told = 0;
    for p in run {
        told += kills::log_kills(p, &mut tracker, &ranks, "1").len();
    }
    // 1 to 3, 2 to 4, and twice one.
    assert_eq!(told, 2 + 2 + 1 + 1);
}

#[test]
fn a_kill_of_somebody_without_a_name_is_checked_first() {
    let ranks = RankService::new();
    let mut tracker = KillTracker::new();
    let mut p = payload("m");
    p.kill_count = Some(vec![]);
    kills::log_kills(p, &mut tracker, &ranks, "1");
    let mut p = payload("m");
    p.kill_count = Some(rows(vec![(
        "\u{4e2d}\u{4e2d}\u{4e2d}",
        object(vec![("1", count(1))]),
    )]));
    assert!(!kills::can_tell_kills(&p, &tracker, &ranks));
}

#[test]
fn a_message_of_a_match_is_taken_in() {
    let mut app = AppState::new();
    let mut ranks = RankService::new();
    let mut forms = FormService::new(String::new());
    let mut tracker = KillTracker::new();
    app.my.steam_id = "7656119000000011".to_string();
    ranks.seed_user("7656119000000011", &ranked("7656119000000011", "ace", 1700.0));
    assert!(monitor::can_handle(&app, &ranks, &tracker, &payload("m1")));
    let out = monitor::handle_match_payload(
        &mut app, &mut ranks, &mut forms, &mut tracker, "7656119000000011", payload(" m1 "), 77, 5,
    )
    .unwrap();
    assert!(out.is_new);
    // A new match looks everybody up, those known before it too.
    assert_eq!(
        out.rank_queue,
        vec!["7656119000000011".to_string(), "7656119000000022".to_string()]
    );
    assert_eq!(out.form_queue.len(), 2);
    assert_eq!(app.my.ws_status, "in-match");
    assert_eq!(app.my.rank_label, "B+");
    assert_eq!(app.my.rank_score, Some(1700));
    assert_eq!(app.updated_at, 77);
    let m = app.match_state.as_ref().unwrap();
    assert_eq!(m.match_id, "m1");
    assert_eq!(m.map, "de_nuke");
    assert_eq!((m.ct_score, m.t_score, m.ct_half, m.t_half), (2, 0, None, Some(1)));
    assert_eq!(m.players.len(), 2);
    assert_eq!(m.players[0].steam_id, "7656119000000011");
    assert_eq!(m.players[0].side, "CT");
    assert_eq!(m.players[0].name.as_deref(), Some("ace"));
    assert!(m.players[0].alive);
    assert_eq!(m.players[1].side, "T");
    assert_eq!(m.players[1].name, None);
    // The same message again: nothing new.
    let out = monitor::handle_match_payload(
        &mut app, &mut ranks, &mut forms, &mut tracker, "7656119000000011", payload("m1"), 78, 6,
    )
    .unwrap();
    assert!(!out.is_new && out.rank_queue.is_empty() && out.form_queue.is_empty());
    assert!(out.kills.is_empty());
    // Without an id the message is ignored.
    assert!(monitor::handle_match_payload(
        &mut app, &mut ranks, &mut forms, &mut tracker, "1", payload("  "), 99, 7,
    )
    .is_none());
    assert_eq!(app.updated_at, 78);
}

#[test]
fn a_new_match_forgets_the_ranks_of_the_last() {
    let me = "7656119000000011";
    let mut app = AppState::new();
    let mut ranks = RankService::new();
    let mut forms = FormService::new(String::new());
    let mut tracker = KillTracker::new();
    monitor::handle_match_payload(
        &mut app, &mut ranks, &mut forms, &mut tracker, me, payload("m1"), 1, 1,
    )
    .unwrap();
    ranks.seed_user(me, &ranked(me, "ace", 1700.0));
    ranks.seed_user("7656119000000022", &ranked("7656119000000022", "bob", 1500.0));
    // The same match goes on: what is known stays.
    let out = monitor::handle_match_payload(
        &mut app, &mut ranks, &mut forms, &mut tracker, me, payload("m1"), 2, 2,
    )
    .unwrap();
    assert!(out.rank_queue.is_empty());
    assert_eq!(ranks.get("7656119000000022").unwrap().score, Some(1500));
    // Another match: everybody is looked up again.
    let out = monitor::handle_match_payload(
        &mut app, &mut ranks, &mut forms, &mut tracker, me, payload("m2"), 3, 3,
    )
    .unwrap();
    assert!(out.is_new);
    assert_eq!(out.rank_queue, vec![me.to_string(), "7656119000000022".to_string()]);
    assert_eq!(ranks.get(me).unwrap().status, RankStatus::Loading);
    assert_eq!(ranks.get("7656119000000022").unwrap().status, RankStatus::Loading);
}

fn on_board(id: &str, side: &str, rating: Option<f64>, kill: u32, death: u32) -> Player {
    Player {
        steam_id: id.to_string(),
        side: side.to_string(),
        name: None,
        kill,
        death,
        assist: 0,
        adr: None,
        alive: true,
        rating: rating.map(dbl),
    }
}

fn played(players: Vec<Player>) -> MatchState {
    MatchState {
        match_id: "m".to_string(),
        map: "de_dust2".to_string(),
        ct_score: 1,
        t_score: 2,
        ct_half: None,
        t_half: None,
        players,
    }
}

#[test]
fn the_board_ranks_the_players_of_a_side() {
    let players = vec![
        on_board("9", "CT", None, 50, 0),
        on_board("3", "CT", Some(1.0), 5, 5),
        on_board("1", "T", Some(9.0), 0, 0),
        on_board("2", "CT", Some(1.0), 5, 5),
        on_board("4", "CT", Some(1.0), 5, 4),
        on_board("5", "CT", Some(1.0), 6, 9),
        on_board("6", "CT", Some(1.2), 0, 9),
        on_board("7", "CT", Some(-2.0), 90, 0),
    ];
    let ids: Vec<String> =
        state::ranked_side(&players, "CT").into_iter().map(|p| p.steam_id).collect();
    assert_eq!(ids, ["6", "5", "4", "2", "3", "9", "7"]);
    assert!(state::ranked_side(&players, "X").is_empty());
}

#[test]
fn a_team_shows_names_ranks_and_results() {
    let mut ranks = RankService::new();
    let mut forms = FormService::new(String::new());
    ranks.seed_user("1", &ranked("1", "ace", 1700.0));
    ranks.seed_user("2", &ranked("2", "bob", 2460.0));
    ranks.seed_stars("2", 9);
    ranks.ensure("123456789");
    forms.seed("1", vec![true, false], 100);
    let m = played(vec![
        on_board("1", "CT", Some(1.2), 10, 4),
        on_board("2", "CT", Some(1.1), 9, 4),
        on_board("123456789", "CT", None, 0, 0),
        on_board("8", "T", None, 0, 0),
    ]);
    let (team, queue) =
        state::build_team_json(&m, "CT", "1", &ranks, &mut forms, 101).unwrap();
    assert_eq!(queue, vec!["2".to_string(), "123456789".to_string()]);
    assert_eq!((team.side.as_str(), team.name.as_str()), ("CT", "CT"));
    assert_eq!(team.avg_score, Some(1700));
    let p = &team.players[0];
    assert_eq!(p.name, "ace");
    assert!(p.is_me && !p.rank_loading);
    assert_eq!((p.rank_label.as_str(), p.rank_class.as_str()), ("B+", "B"));
    assert_eq!(p.rank_icon, "/assets/B1.svg");
    assert_eq!(p.rank_score, Some(1700));
    assert_eq!(p.rank_progress, Progress::Within { score: dbl(1700.0), low: 1600, high: 1750 });
    assert_eq!(p.form, vec![true, false]);
    let p = &team.players[1];
    assert_eq!(p.stars, Some(9));
    assert_eq!(p.rank_class, "S");
    assert!(!p.is_me);
    let p = &team.players[2];
    assert!(p.rank_loading);
    assert_eq!(p.name, "23456789");
    assert_eq!((p.rank_label.as_str(), p.rank_class.as_str(), p.rank_icon.as_str()), ("", "U", ""));
    assert!(state::build_team_json(&m, "X", "1", &ranks, &mut forms, 101).is_none());
}

#[test]
fn the_snapshot_shows_the_own_side_first() {
    let mut app = AppState::new();
    let ranks = RankService::new();
    let mut forms = FormService::new(String::new());
    let shot = state::build_api_state(&app, &ranks, &mut forms, true, 1);
    assert!(!shot.api.in_match && shot.api.match_info.is_none() && shot.api.anim_exit);
    assert_eq!(shot.api.cfg_epoch, 1);
    assert_eq!(shot.api.my.rank_class, "U");
    assert_eq!(shot.api.my.rank_progress, Progress::Empty);

    app.my.steam_id = "8".to_string();
    app.my.rank_score = Some(2100);
    app.my.rank_label = "A+".to_string();
    app.updated_at = 44;
    app.set_board_showing(true);
    app.bump_cfg_epoch();
    let mut values: Table<String> = Table::new();
    values.insert("TIME".to_string(), "12:00".to_string());
    table::insert_nested(&mut app.plugins, "clock".to_string(), values);
    app.match_state = Some(played(vec![
        on_board("1", "CT", None, 1, 0),
        on_board("8", "T", None, 0, 0),
    ]));
    assert!(state::presentable(&app, &ranks));
    let shot = state::build_api_state(&app, &ranks, &mut forms, false, 1);
    assert!(shot.api.in_match && shot.api.board_showing && !shot.api.anim_exit);
    assert_eq!(shot.api.cfg_epoch, 2);
    assert_eq!(shot.api.updated_at, 44);
    assert_eq!(shot.api.my.rank_class, "A");
    assert_eq!(shot.api.my.rank_icon, "/assets/A1.svg");
    assert_eq!(
        shot.api.my.rank_progress,
        Progress::Within { score: dbl(2100.0), low: 2050, high: 2200 }
    );
    assert_eq!(shot.api.plugins.get("clock").unwrap().get("TIME").unwrap(), "12:00");
    assert_eq!(shot.queue, vec!["8".to_string(), "1".to_string()]);
    let m = shot.api.match_info.unwrap();
    assert_eq!(m.my_side, "T");
    let sides: Vec<&str> = m.teams.iter().map(|t| t.side.as_str()).collect();
    assert_eq!(sides, ["T", "CT"]);
    // A second snapshot looks nobody up.
    assert!(state::build_api_state(&app, &ranks, &mut forms, false, 2).queue.is_empty());

    // Who does not play sees CT first; a side without players is left out.
    app.my.steam_id = "77".to_string();
    app.match_state = Some(played(vec![on_board("1", "T", None, 1, 0)]));
    let m = state::build_api_state(&app, &ranks, &mut forms, false, 3).api.match_info.unwrap();
    assert_eq!(m.my_side, "");
    assert_eq!(m.teams.len(), 1);
    assert_eq!(m.teams[0].name, "T");

    app.reset_data();
    assert!(app.match_state.is_none());
    assert_eq!(app.my.steam_id, "");
    assert_eq!(app.cfg_epoch(), 2);
    assert!(app.board_showing());
}

#[test]
fn an_id_that_cannot_be_cut_is_not_presentable() {
    let mut app = AppState::new();
    let mut ranks = RankService::new();
    let id = "\u{4e2d}\u{4e2d}\u{4e2d}";
    app.match_state = Some(played(vec![on_board(id, "CT", None, 1, 0)]));
    assert!(!state::presentable(&app, &ranks));
    ranks.seed_user(id, &ranked(id, "named", 1500.0));
    assert!(state::presentable(&app, &ranks));
    app.match_state = Some(played(vec![on_board("1", "CT", Some(f64::NAN), 1, 0)]));
    assert!(!state::presentable(&app, &ranks));
}

fn cfg(steam_id: &str, token: &str, poll_ms: u64) -> MonitorConfig {
    MonitorConfig {
        steam_id: steam_id.to_string(),
        token: token.to_string(),
        poll_ms,
        port: 8910,
        anim_exit: true,
        mock: false,
        mock_plugins: false,
    }
}

#[test]
fn a_connection_asks_after_pong_and_after_each_answer() {
    let c = cfg("1", "", 3000);
    let mut s = Session::new("1\"".to_string(), connection::config_key(&c));
    let mut app = AppState::new();
    let mut ranks = RankService::new();
    let mut forms = FormService::new(String::new());
    let question = "{\"messageData\":{\"steam_id\":\"1\\\"\"},\"messageType\":10001}";

    let t = s.on_text("pong", None, &mut app, &mut ranks, &mut forms, "now", 1, 1);
    assert!(matches!(t.reply, Reply::Send(q) if q == question));
    assert!(!t.schedule && t.log.is_none());

    let t = s.on_text("noise", None, &mut app, &mut ranks, &mut forms, "now", 1, 1);
    assert!(matches!(t.reply, Reply::Nothing));
    assert!(!t.schedule && !s.poll_due);

    let env = |kind: i64, p: Option<MatchPayload>| Some(WsEnvelope { message_type: kind, payload: p });
    let t = s.on_text("{m}", env(10002, Some(payload("m1"))), &mut app, &mut ranks, &mut forms, "now", 2, 2);
    assert!(t.schedule && s.poll_due && s.notified);
    assert_eq!(t.log.unwrap().line, "[now] [WS] type=10002 data={m}\n");
    assert!(t.matched.unwrap().is_new);
    assert_eq!(app.my.ws_status, "in-match");

    // The same text is not written again.
    let t = s.on_text("{m}", env(10002, Some(payload("m1"))), &mut app, &mut ranks, &mut forms, "now", 3, 3);
    assert!(t.log.is_none() && !t.matched.unwrap().is_new);

    let r = s.on_poll_due();
    assert!(matches!(r, Reply::Send(q) if q == question));
    assert!(!s.poll_due);

    let t = s.on_text("{}", env(10003, None), &mut app, &mut ranks, &mut forms, "now", 9, 4);
    assert!(t.ended && t.schedule);
    assert!(app.match_state.is_none());
    assert_eq!(app.updated_at, 9);
    assert!(s.tracker.prev.is_none());

    let t = s.on_text("x", env(10001, None), &mut app, &mut ranks, &mut forms, "now", 10, 5);
    assert!(t.log.is_some() && !t.schedule && t.matched.is_none());
    let t = s.on_text("x", env(7, None), &mut app, &mut ranks, &mut forms, "now", 10, 5);
    assert!(t.log.is_none() && !t.schedule);
    // A message of a match that could not be read counts as an answer all the same.
    let t = s.on_text("?", env(10002, None), &mut app, &mut ranks, &mut forms, "now", 11, 6);
    assert!(t.schedule && t.matched.is_none());
    assert!(s.takes(&app, &ranks, &WsEnvelope { message_type: 10002, payload: Some(payload("m2")) }));
}

#[test]
fn a_connection_is_given_up_for_a_reason() {
    let c = cfg("1", "t", 3000);
    let s = Session::new("1".to_string(), connection::config_key(&c));
    assert!(matches!(s.on_config(&cfg(" 1 ", "t ", 3000)), Reply::Nothing));
    for other in [cfg("2", "t", 3000), cfg("1", "x", 3000), cfg("1", "t", 4000)] {
        assert!(matches!(s.on_config(&other), Reply::End(e) if e == "监控配置已变化, 重建会话"));
    }
    assert!(matches!(session::on_frame(Frame::Ping), Reply::Pong));
    assert!(matches!(session::on_frame(Frame::Other), Reply::Nothing));
    assert!(matches!(session::on_frame(Frame::Failed("x".to_string())), Reply::End(e) if e == "WS 读取错误: x"));
    assert!(matches!(session::on_frame(Frame::Closed), Reply::End(e) if e == "WS 连接关闭"));
    assert!(matches!(session::on_stall(), Reply::End(e) if e == "WS 无响应超过 60s"));
    assert_eq!(
        session::poll_message("76561198"),
        "{\"messageData\":{\"steam_id\":\"76561198\"},\"messageType\":10001}"
    );
}
