use wmpvp_rank_overlay::config::{self, CliArgs, ConfigFile, FormError, MonitorConfig, SettingsForm};
use wmpvp_rank_overlay::connection::{self, Begin, Loaded, Lookup, Next, Ready, Run};
use wmpvp_rank_overlay::form::FormService;
use wmpvp_rank_overlay::monitor::{self, StatsLoop, StatsStep};
use wmpvp_rank_overlay::number::Real;
use wmpvp_rank_overlay::rank::RankService;
use wmpvp_rank_overlay::source::SourceSwitch;
use wmpvp_rank_overlay::state::{AppState, MatchState, MyCard};
use wmpvp_rank_overlay::wmpvp::{DetailStats, Score, StatsError, User};

fn settings(steam_id: &str, token: &str) -> MonitorConfig {
    MonitorConfig {
        steam_id: steam_id.to_string(),
        token: token.to_string(),
        poll_ms: 3000,
        port: 8910,
        anim_exit: true,
        mock: false,
        mock_plugins: false,
    }
}

fn account(id: &str, nick: Option<&str>, avatar: Option<&str>) -> User {
    User {
        nickname: nick.map(|s| s.to_string()),
        steam_id: Some(id.to_string()),
        avatar: avatar.map(|s| s.to_string()),
        score: Some(Score::Number(Some(Real { bits: 1700.0f64.to_bits() }))),
    }
}

#[test]
fn waits_double_up_to_a_limit() {
    let waits: Vec<u64> = (0..8).map(connection::backoff).collect();
    assert_eq!(waits, [2000, 4000, 8000, 16000, 32000, 64000, 64000, 64000]);
    assert_eq!(connection::backoff(u32::MAX), 64000);
}

#[test]
fn a_slow_pace_is_part_of_the_key() {
    let mut a = settings(" 1 ", " t ");
    a.poll_ms = 10;
    let k = connection::config_key(&a);
    assert_eq!((k.steam_id.as_str(), k.token.as_str(), k.poll_ms), ("1", "t", 1000));
    assert!(k.same(&connection::config_key(&a)));
    assert!(!k.same(&connection::config_key(&settings("1", "t"))));
}

#[test]
fn an_account_is_looked_up_and_followed() {
    let mut run = Run::new();
    let mut app = AppState::new();
    let mut forms = FormService::new("old".to_string());
    let mut ranks = RankService::new();

    // Without an account there is nothing to do.
    assert!(matches!(run.begin(&settings(" ", "t"), &mut app, &mut forms), Begin::Wait));
    assert_eq!(app.my.ws_status, "idle");
    assert_eq!(app.my.last_error, connection::NO_ACCOUNT);
    assert_eq!(forms.token(), "t");

    let c = settings(" 123 ", "t");
    app.match_state = Some(MatchState {
        match_id: "old".to_string(),
        map: String::new(),
        ct_score: 0,
        t_score: 0,
        ct_half: None,
        t_half: None,
        players: vec![],
    });
    assert!(matches!(run.begin(&c, &mut app, &mut forms), Begin::LookUp(id) if id == "123"));
    assert!(app.match_state.is_none());
    assert_eq!(app.my.ws_status, "resolving");
    assert_eq!(app.my.last_error, "");

    // A failed lookup is tried again.
    match run.on_lookup(&c, Lookup::Failed("net".to_string()), &mut app, &mut ranks) {
        Loaded::RetryAfter(ms) => assert_eq!(ms, 5000),
        _ => panic!(),
    }
    assert_eq!(app.my.last_error, "查询账号信息失败: net");
    assert!(matches!(run.begin(&c, &mut app, &mut forms), Begin::LookUp(_)));

    let u = account(" 0123 ", Some("ace"), Some("http://a"));
    assert!(connection::can_name_account(&u, &c));
    match run.on_lookup(&c, Lookup::Found(u), &mut app, &mut ranks) {
        Loaded::Account { steam_id, log, token, avatar } => {
            assert_eq!(steam_id, "0123");
            assert_eq!(log, "[ACCOUNT] steam_id=0123 nickname=ace");
            assert_eq!(token.as_deref(), Some("t"));
            assert_eq!(avatar.as_deref(), Some("http://a"));
        }
        _ => panic!(),
    }
    assert_eq!(app.my.steam_id, "0123");
    assert_eq!(app.my.nickname, "ace");
    assert_eq!(ranks.name("0123").as_deref(), Some("ace"));
    assert!(matches!(run.begin(&c, &mut app, &mut forms), Begin::Go));

    assert!(matches!(run.ready(&mut app, &ranks), Ready::NeedAddress(id) if id == "0123"));
    assert_eq!(app.my.rank_label, "B+");
    match run.on_address(Err("x".to_string()), &mut app) {
        Next::Sleep(ms) => assert_eq!(ms, 4000),
        _ => panic!(),
    }
    assert_eq!(app.my.last_error, "获取 WS 地址失败: x");
    match run.on_address(Ok("wss://a".to_string()), &mut app) {
        Next::Connect { sid, url } => assert_eq!((sid.as_str(), url.as_str()), ("0123", "wss://a")),
        _ => panic!(),
    }
    assert_eq!(app.my.ws_status, "connecting");
    assert!(matches!(run.ready(&mut app, &ranks), Ready::Connect { .. }));

    // A change of the configuration starts over at once.
    let e = Some("监控配置已变化, 重建会话".to_string());
    assert!(matches!(run.on_session_end(e, &mut app), Next::Restart));
    assert_eq!(run.retry, 1);
    match run.on_session_end(None, &mut app) {
        Next::Sleep(ms) => assert_eq!(ms, 8000),
        _ => panic!(),
    }
    assert_eq!(app.my.last_error, "连接断开, 正在重连");
    for _ in 0..3 {
        run.on_session_end(Some("WS 连接关闭".to_string()), &mut app);
    }
    assert!(run.ws_url.is_some() && run.retry == 5);
    match run.on_session_end(None, &mut app) {
        Next::Sleep(ms) => assert_eq!(ms, 2000),
        _ => panic!(),
    }
    assert!(run.ws_url.is_none() && run.retry == 0);
}

#[test]
fn an_unknown_account_is_followed_as_it_is() {
    let mut run = Run::new();
    let mut app = AppState::new();
    let mut forms = FormService::new(String::new());
    let mut ranks = RankService::new();
    let c = settings("123456789", "");
    run.begin(&c, &mut app, &mut forms);
    assert!(matches!(run.on_lookup(&c, Lookup::NotFound, &mut app, &mut ranks), Loaded::Unknown));
    assert_eq!(app.my.steam_id, "123456789");
    assert_eq!(app.my.ws_status, "error");
    assert_eq!(app.my.last_error, "未在完美平台查到该 steamId");
    assert!(matches!(run.begin(&c, &mut app, &mut forms), Begin::Go));
    // Without a nickname the id is cut short, and without a token nothing is asked.
    let mut run = Run::new();
    run.begin(&c, &mut app, &mut forms);
    match run.on_lookup(&c, Lookup::Found(account(" ", None, Some(" "))), &mut app, &mut ranks) {
        Loaded::Account { steam_id, token, avatar, .. } => {
            assert_eq!(steam_id, "123456789");
            assert!(token.is_none() && avatar.is_none());
        }
        _ => panic!(),
    }
    assert_eq!(app.my.nickname, "23456789");
    assert!(!connection::can_name_account(
        &account("\u{4e2d}\u{4e2d}\u{4e2d}", None, None),
        &c
    ));
}

fn stats() -> DetailStats {
    DetailStats {
        season_id: "S24".to_string(),
        avg_we: None,
        pw_rating: Some(Real { bits: 1.16f64.to_bits() }),
        cnt: Some(144),
        adr: None,
        win_rate: None,
        kd: None,
        head_shot_ratio: None,
        rws: None,
        stars: Some(3),
        summary: None,
    }
}

#[test]
fn statistics_reach_the_card() {
    let mut my = MyCard::default();
    assert!(monitor::refresh_stats(&mut my, Ok(None)));
    assert!(my.stats.is_none());
    assert!(monitor::refresh_stats(&mut my, Err(StatsError::Other("x".to_string()))));
    assert_eq!(my.last_error, "");
    assert!(monitor::refresh_stats(&mut my, Ok(Some(stats()))));
    let s = my.stats.as_ref().unwrap();
    assert_eq!((s.season_id.as_str(), s.summary.as_str()), ("S24", ""));
    assert_eq!(s.rating_pro.unwrap().bits, 1.16f64.to_bits());
    assert_eq!((s.season_cnt, s.stars), (Some(144), Some(3)));
    assert!(!monitor::refresh_stats(&mut my, Err(StatsError::LoginExpired)));
    assert_eq!(my.ws_status, "token-invalid");
    assert_eq!(my.last_error, "token 已失效, 请重新抓取");
    assert!(my.stats.is_some());
}

#[test]
fn statistics_are_asked_for_once_in_a_while() {
    let mut l = StatsLoop::new();
    assert!(matches!(l.next(&settings("1", " ")), StatsStep::Wait));
    assert!(matches!(l.next(&settings("", "t")), StatsStep::Wait));
    assert!(matches!(l.next(&settings(" 1", "t ")), StatsStep::Query { token, target } if token == "t" && target == "1"));
    assert!(!l.after_reply(true));
    assert!(matches!(l.next(&settings("1", "t")), StatsStep::QueryAfter { millis: 600_000, .. }));
    assert!(matches!(l.next(&settings("2", "t")), StatsStep::Query { .. }));
    assert!(l.after_reply(false));
    assert!(matches!(l.next(&settings("2", "t")), StatsStep::Query { .. }));
}

#[test]
fn an_avatar_is_kept_once() {
    let mut app = AppState::new();
    assert!(monitor::must_fetch_avatar(&app, "u"));
    assert!(!monitor::keep_avatar(&mut app, "u".to_string(), vec![]));
    assert!(monitor::must_fetch_avatar(&app, "u"));
    assert!(monitor::keep_avatar(&mut app, "u".to_string(), vec![1, 2]));
    assert!(!monitor::must_fetch_avatar(&app, "u"));
    assert!(monitor::must_fetch_avatar(&app, "v"));
    assert_eq!(app.avatar.unwrap().bytes, vec![1, 2]);
}

#[test]
fn statuses_keep_the_last_reason() {
    let mut my = MyCard::default();
    monitor::set_status(&mut my, "error", "bad");
    monitor::set_status(&mut my, "connecting", "");
    assert_eq!((my.ws_status.as_str(), my.last_error.as_str()), ("connecting", "bad"));
}

#[test]
fn the_source_changes_with_the_configuration() {
    let mut app = AppState::new();
    let mut c = settings("1", "");
    let mut s = SourceSwitch::new(&c);
    app.my.nickname = "x".to_string();
    assert!(!s.on_config(&c, &mut app));
    assert_eq!(app.my.nickname, "x");
    c.mock = true;
    assert!(s.on_config(&c, &mut app));
    assert_eq!(app.my.nickname, "");
    assert_eq!(app.cfg_epoch(), 2);
    assert!(!s.on_config(&c, &mut app));
}

fn words(list: &[&str]) -> Vec<String> {
    list.iter().map(|s| s.to_string()).collect()
}

#[test]
fn the_command_line_is_read() {
    let a = config::parse_cli(&words(&["x", "--steam-id", " 1 ", "-p", "80", "--poll-ms", "2000", "--token", " t", "-h"]));
    assert_eq!(a.steam_id.as_deref(), Some("1"));
    assert_eq!(a.token.as_deref(), Some("t"));
    assert_eq!((a.port, a.poll_ms, a.help), (Some(80), Some(2000), true));
    let a = config::parse_cli(&words(&["x", "--port", "99999", "what", "--token"]));
    assert_eq!((a.port, a.token, a.help), (None, None, false));
    let a = config::parse_cli(&words(&["--help"]));
    assert!(!a.help);
}

#[test]
fn the_command_line_goes_over_the_file() {
    let f = ConfigFile::default();
    assert_eq!((f.port, f.poll_ms, f.anim_exit, f.mock), (8910, 3000, true, false));
    let none = || CliArgs { steam_id: None, token: None, port: None, poll_ms: None, help: false };
    let mut bad = f.clone();
    bad.port = 0;
    bad.poll_ms = 999;
    let r = config::apply_cli(bad, none());
    assert_eq!((r.port, r.poll_ms), (8910, 3000));
    let r = config::apply_cli(f, CliArgs { port: Some(81), steam_id: Some("5".to_string()), ..none() });
    assert_eq!((r.port, r.steam_id.as_str()), (81, "5"));
    let m = config::monitor_config(&ConfigFile { steam_id: " 5 ".to_string(), ..r });
    assert_eq!(m.steam_id, "5");
}

#[test]
fn the_settings_window_checks_its_inputs() {
    let f = ConfigFile::default();
    let form = |id: &str, port: &str, poll: &str| SettingsForm {
        token: " t ".to_string(),
        steam_id: id.to_string(),
        port: port.to_string(),
        poll_ms: poll.to_string(),
    };
    assert!(matches!(config::apply_form(&f, &form(" ", "1", "1")), Err(FormError::NoSteamId)));
    assert!(matches!(config::apply_form(&f, &form("1", "0", "1")), Err(FormError::BadPort)));
    assert_eq!(config::form_error_text(FormError::NoSteamId), "Steam ID 不能为空");
    assert_eq!(config::form_error_text(FormError::BadPort), "端口无效");
    let c = config::apply_form(&f, &form(" 1 ", "x", "5")).ok().unwrap();
    assert_eq!((c.token.as_str(), c.steam_id.as_str(), c.port, c.poll_ms), ("t", "1", 8910, 1000));
    let shown = config::form_of(&c);
    assert_eq!((shown.port.as_str(), shown.poll_ms.as_str()), ("8910", "1000"));
    let again = config::apply_form(&c, &shown).ok().unwrap();
    assert_eq!((again.port, again.poll_ms), (8910, 1000));
    assert_eq!(config::page_url(8910, "/match"), "http://127.0.0.1:8910/match");
    assert_eq!(config::saved_message(8910), "已保存并应用, 面板地址: http://127.0.0.1:8910");
}
