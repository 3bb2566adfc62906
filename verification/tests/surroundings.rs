use wmpvp_rank_overlay::config::MonitorConfig;
use wmpvp_rank_overlay::console::{self, LineCutter, LogBuffer, LogLevel};
use wmpvp_rank_overlay::datalog::{self, DataLog};
use wmpvp_rank_overlay::form::FormService;
use wmpvp_rank_overlay::mock::{self, MockRun, Phase};
use wmpvp_rank_overlay::number::Real;
use wmpvp_rank_overlay::plugin::{
    self, Accepted, ExtractError, Extractor, Fetched, MockValue, PluginDef, PluginStep, Source,
};
use wmpvp_rank_overlay::rank::{self, RankService};
use wmpvp_rank_overlay::server::{self, AssetKind, PortLoop};
use wmpvp_rank_overlay::state::{self, AppState};
use wmpvp_rank_overlay::status::{self, Rgb};
use wmpvp_rank_overlay::table::Table;

#[test]
fn output_is_cut_into_lines() {
    let mut c = LineCutter::new();
    assert_eq!(c.feed("one"), Vec::<String>::new());
    assert_eq!(c.feed(" \r\ntwo\n\nthr"), vec!["one", "two", ""]);
    assert_eq!(c.line, "thr");
    let mut d = LineCutter::new();
    assert_eq!(d.feed("one \r\ntwo\n\nthr"), vec!["one", "two", ""]);
    assert_eq!(d.line, "thr");
}

#[test]
fn the_log_keeps_the_latest_lines() {
    let mut b = LogBuffer::new();
    for i in 0..450 {
        b.push(i.to_string());
    }
    assert_eq!(b.lines.len(), 400);
    assert_eq!(b.lines[0], "50");
    let t = b.tail();
    assert_eq!(t.len(), 100);
    assert_eq!((t[0].as_str(), t[99].as_str()), ("350", "449"));
    b.clear();
    assert!(b.tail().is_empty());
}

#[test]
fn log_lines_are_shown_short() {
    assert_eq!(
        console::short_log_line("2026-08-28T06:19:31.017  INFO ready"),
        "06:19:31 INFO ready"
    );
    assert_eq!(console::short_log_line("2026-08-28T06:19:31.017 INFO ready"), "06:19:31 ");
    assert_eq!(console::short_log_line("plain"), "plain");
    assert_eq!(console::short_log_line("2026-08-28T06:19:31.0123"), "2026-08-28T06:19:31.0123");
    assert!(!console::can_shorten("2026-08-28T\u{4e2d}\u{4e2d}\u{4e2d}        xxxxxxxx"));
    assert!(console::can_shorten("\u{4e2d}"));
    assert_eq!(console::log_level("06 ERROR WARN"), LogLevel::Error);
    assert_eq!(console::log_level("06  WARN x"), LogLevel::Warning);
    assert_eq!(console::log_level("06 INFO"), LogLevel::Plain);
}

#[test]
fn the_data_log_leaves_repeats_out() {
    let mut d = DataLog::create();
    let w = d.line("ws10002", "2026-08-28 13:00:05", "[WS] a").unwrap();
    assert_eq!(w.line, "[2026-08-28 13:00:05] [WS] a\n");
    assert!(!w.check_size);
    assert!(d.line("ws10002", "t", "[WS] a").is_none());
    assert!(d.line("ws10003", "t", "[WS] a").is_some());
    assert!(d.line("ws10002", "t", "[WS] b").is_some());
    assert!(d.line("ws10002", "t", "[WS] a").is_some());
    for i in 5..200u32 {
        assert!(!d.raw("t", "x").check_size, "{i}");
    }
    assert!(d.raw("t", "x").check_size);
    assert!(!datalog::must_clear(20 * 1024 * 1024));
    assert!(datalog::must_clear(20 * 1024 * 1024 + 1));
}

fn def(name: &str, url: &str, extract: Vec<(&str, &str, &str)>) -> PluginDef {
    PluginDef {
        name: name.to_string(),
        url: url.to_string(),
        user_agent: plugin::default_ua(),
        no_proxy: plugin::default_true(),
        interval_sec: plugin::default_interval(),
        retry_sec: plugin::default_retry(),
        extract: extract
            .into_iter()
            .map(|(v, k, p)| Extractor { var: v.to_string(), kind: k.to_string(), pattern: p.to_string() })
            .collect(),
        mock: vec![],
    }
}

fn cfg(id: &str, mock: bool) -> MonitorConfig {
    MonitorConfig {
        steam_id: id.to_string(),
        token: String::new(),
        poll_ms: 3000,
        port: 8910,
        anim_exit: true,
        mock,
        mock_plugins: false,
    }
}

#[test]
fn plugins_need_a_name_and_rules() {
    let mut defs = Vec::new();
    let rule = || vec![("V", "regex", "x")];
    assert_eq!(plugin::load_def(&mut defs, def("", "u", rule())), Accepted::Incomplete);
    assert_eq!(plugin::load_def(&mut defs, def("a", "u", vec![])), Accepted::Incomplete);
    assert_eq!(plugin::load_def(&mut defs, def("a", "first", rule())), Accepted::Loaded);
    assert_eq!(plugin::load_def(&mut defs, def("a", "second", rule())), Accepted::Known);
    assert_eq!(defs.len(), 1);
    assert_eq!(defs[0].url, "first");
    assert_eq!((defs[0].interval_sec, defs[0].retry_sec), (1800, 300));
    assert_eq!(defs[0].user_agent, "curl/8.5.0");
}

#[test]
fn sources_are_fetched_at_their_pace() {
    let mut d = def("a", "http://x/{steam_id}?q={steam_id}", vec![("V", "count", "x")]);
    d.interval_sec = 5;
    match plugin::plugin_step(&d, &cfg(" 76 ", false)) {
        PluginStep::Fetch { source: Source::Web(u), wait } => {
            assert_eq!((u.as_str(), wait), ("http://x/76?q=76", 60))
        }
        _ => panic!(),
    }
    assert!(matches!(plugin::plugin_step(&d, &cfg(" ", false)), PluginStep::Idle { wait: 60 }));
    assert!(matches!(plugin::plugin_step(&d, &cfg("76", true)), PluginStep::Simulate { wait: 5 }));
    d.url = "file:data.log".to_string();
    d.interval_sec = 0;
    match plugin::plugin_step(&d, &cfg("", false)) {
        PluginStep::Fetch { source: Source::File(p), wait } => {
            assert_eq!((p.as_str(), wait), ("data.log", 1))
        }
        _ => panic!(),
    }
    d.retry_sec = 4;
    assert_eq!(plugin::wait_after(&d, &Fetched::Limited, 60), 30);
    d.retry_sec = 400;
    assert_eq!(plugin::wait_after(&d, &Fetched::Limited, 60), 400);
    assert_eq!(plugin::wait_after(&d, &Fetched::Failed, 60), 60);
    assert_eq!(plugin::wait_after(&d, &Fetched::Body(String::new()), 61), 61);
}

#[test]
fn values_are_taken_out_by_rules() {
    let body = "\"dateTime\":\"2026-08-28T13:00:05\" [KILL] self=true weapon=ak47 [KILL] self=true weapon=ak47";
    let d = def(
        "time",
        "u",
        vec![
            ("TIME", "regex", "\"dateTime\":\"[^\"]*T(\\d{2}:\\d{2}:\\d{2})"),
            ("NONE", "regex", "(absent)"),
            ("WHOLE", "regex", "KILL"),
            ("K", "count", "\\[KILL\\] self=true weapon=ak47\\b"),
            ("ZERO", "count", "nothing"),
            ("BAD", "regex", "("),
            ("BADC", "count", "["),
            ("ODD", "xpath", "/"),
        ],
    );
    let r = plugin::run_extractors(&d, body);
    assert_eq!(r.len(), 8);
    assert!(matches!(r[5], Err(ExtractError::BadPattern)));
    assert!(matches!(r[6], Err(ExtractError::BadPattern)));
    assert!(matches!(&r[7], Err(ExtractError::UnknownKind(k)) if k == "xpath"));
    let v = plugin::collect_values(&d.extract, &r);
    assert_eq!(v.rows.len(), 3);
    assert_eq!(v.get("TIME").unwrap(), "13:00:05");
    assert_eq!(v.get("K").unwrap(), "2");
    assert_eq!(v.get("ZERO").unwrap(), "0");

    let mut app = AppState::new();
    assert!(plugin::publish(&mut app, "time", v));
    assert_eq!(app.plugins.get("time").unwrap().get("K").unwrap(), "2");
    assert!(!plugin::publish(&mut app, "time", Table::new()));
    assert_eq!(app.plugins.get("time").unwrap().rows.len(), 3);
    assert!(matches!(plugin::counted_value(Some(12)), Ok(Some(s)) if s == "12"));
    assert!(matches!(plugin::captured_value(Some(None)), Ok(None)));
}

#[test]
fn made_up_values_grow_slowly() {
    let mut d = def("a", "u", vec![("KILLS", "count", "x"), ("NAME", "regex", "x")]);
    let mut numbers: Table<i64> = Table::new();
    // Without values of its own the plugin shows nothing.
    assert!(plugin::simulate(&d, &mut numbers, 12345, false).rows.is_empty());
    d.mock = vec![
        ("NAME".to_string(), MockValue::Text("ace".to_string())),
        ("N".to_string(), MockValue::Number(41)),
    ];
    let v = plugin::simulate(&d, &mut numbers, 12345, false);
    assert_eq!(v.rows.len(), 2);
    assert_eq!(v.get("NAME").unwrap(), "ace");
    let mut before: i64 = v.get("N").unwrap().parse().unwrap();
    assert!(before == 41 || before == 42);
    let mut grown = 0;
    for ns in 0..1000u32 {
        let v = plugin::simulate(&d, &mut numbers, ns.wrapping_mul(7919), true);
        assert_eq!(v.get("NAME").unwrap(), "ace");
        let now: i64 = v.get("N").unwrap().parse().unwrap();
        assert!(now == before || now == before + 1);
        grown += now - before;
        before = now;
        let k: i64 = v.get("KILLS").unwrap().parse().unwrap();
        assert!((100..1600).contains(&k));
    }
    assert!((300..500).contains(&grown), "{grown}");
}

#[test]
fn a_made_up_number_starts_where_its_name_says() {
    let d = def("a", "u", vec![("AB", "count", "x")]);
    let mut numbers: Table<i64> = Table::new();
    let ns: u32 = 123_456_789;
    let v = plugin::simulate(&d, &mut numbers, ns, true);
    let start = ((ns % 300 + 2 * 37) % 400 + 100) as i64;
    let h: u32 = (65u32 * 31) + 66;
    let grows = (ns ^ h.wrapping_mul(2_654_435_761)) % 5 < 2;
    assert_eq!(v.get("AB").unwrap(), &(start + grows as i64).to_string());
}

fn pair(name: &str, value: &str) -> (String, String) {
    (name.to_string(), value.to_string())
}

#[test]
fn pages_get_their_style() {
    let html = "<html><head></head><body></body></html>".to_string();
    let r = server::html_page("match", Some(html.clone()), false, "web");
    assert_eq!((r.status, r.body.as_str()), (200, html.as_str()));
    assert_eq!(
        r.headers,
        vec![
            pair("content-type", "text/html; charset=utf-8"),
            pair("cache-control", "no-cache, no-store, must-revalidate"),
            pair("pragma", "no-cache"),
        ]
    );
    let r = server::html_page("match", Some(html), true, "web");
    assert_eq!(
        r.body,
        "<html><head><link rel=\"stylesheet\" href=\"/match.css\">\n</head><body></body></html>"
    );
    let r = server::html_page("all", None, true, "C:/web");
    assert_eq!(r.status, 404);
    assert!(r.body.starts_with("未找到 web/all.html\n"));
    assert!(r.body.ends_with("当前查找目录: C:/web"));
    assert_eq!(r.headers, vec![pair("content-type", "text/plain; charset=utf-8")]);
}

#[test]
fn styles_are_asked_for_again() {
    let r = server::web_css("match.css", Some("a { }".to_string()));
    assert_eq!((r.status, r.body.as_str()), (200, "a { }"));
    assert_eq!(
        r.headers,
        vec![pair("content-type", "text/css; charset=utf-8"), pair("cache-control", "no-cache")]
    );
    for r in [
        server::web_css("match.css", None),
        server::web_css("../match.css", Some("a { }".to_string())),
    ] {
        assert_eq!((r.status, r.body.as_str()), (404, "not found"));
        assert_eq!(r.headers, vec![pair("content-type", "text/plain; charset=utf-8")]);
    }
}

#[test]
fn the_icon_of_every_tier_is_served() {
    let scores = [
        1.0f64, 1000.0, 1200.0, 1400.0, 1500.0, 1700.0, 1800.0, 2000.0, 2100.0, 2300.0, 2500.0,
    ];
    for x in scores {
        let label = rank::rank_label_from_score(Real { bits: x.to_bits() });
        let icon = rank::rank_icon_url(label);
        let name = icon.strip_prefix("/assets/").unwrap();
        assert!(server::asset_kind(name).is_some(), "{icon}");
    }
    for x in [0.0f64, -3.0, f64::NAN, f64::INFINITY] {
        let label = rank::rank_label_from_score(Real { bits: x.to_bits() });
        assert_eq!(rank::rank_icon_url(label), "");
    }
}

#[test]
fn styles_and_pictures_have_known_names() {
    assert!(server::style_name("match.css"));
    assert!(server::style_name("my-page_2.css"));
    for name in ["match.html", "../a.css", "a/b.css", "a b.css", "\u{e9}.css", "..css"] {
        assert!(!server::style_name(name), "{name}");
    }
    assert_eq!(server::asset_kind("A11_bg.svg"), Some(AssetKind::Svg));
    assert_eq!(server::asset_kind("star.svg"), Some(AssetKind::Svg));
    assert_eq!(server::asset_kind("s-gold-1.png"), Some(AssetKind::Png));
    assert_eq!(server::asset_kind("avatar.png"), None);
    assert_eq!(server::content_type(AssetKind::Svg), "image/svg+xml; charset=utf-8");
    assert_eq!(server::content_type(AssetKind::Png), "image/png");
}

#[test]
fn the_pages_move_with_the_port() {
    let mut p = PortLoop::new();
    assert_eq!(p.next(8910), Some(8910));
    assert_eq!(p.next(8910), None);
    assert!(!p.moved(8910));
    assert!(p.moved(8911));
    assert_eq!(p.next(8911), Some(8911));
}

#[test]
fn statuses_have_names_and_colours() {
    assert_eq!(status::status_text("in-match"), "对局中");
    assert_eq!(status::status_text("token-invalid"), "Token 已失效");
    assert_eq!(status::status_text(""), "未启动");
    assert_eq!(status::status_color("idle"), Rgb { r: 118, g: 217, b: 138 });
    assert_eq!(status::status_color("resolving"), Rgb { r: 255, g: 213, b: 107 });
    assert_eq!(status::status_color("error"), Rgb { r: 255, g: 128, b: 110 });
    assert_eq!(status::status_color("?"), Rgb { r: 130, g: 140, b: 160 });
    assert_eq!(status::window_title("idle"), "空闲 - 完美段位监控");
}

fn sdf(px: f32, py: f32, half: f32, r: f32) -> f32 {
    let b = half - r;
    let (qx, qy) = (px.abs() - b, py.abs() - b);
    (qx.max(0.0).powi(2) + qy.max(0.0).powi(2)).sqrt() + qx.max(qy).min(0.0) - r
}

#[test]
fn the_icon_is_a_rounded_square_with_a_letter() {
    let px = status::make_tray_icon(None);
    assert_eq!(px.len(), 4096);
    let letter = ["01110", "10001", "10000", "01110", "00001", "10001", "01110"];
    for y in 0..32usize {
        for x in 0..32usize {
            let (fx, fy) = (x as f32 + 0.5 - 16.0, y as f32 + 0.5 - 16.0);
            let in_letter = (11..21).contains(&x)
                && (9..23).contains(&y)
                && letter[(y - 9) / 2].as_bytes()[(x - 11) / 2] == b'1';
            let want: [u8; 4] = if in_letter {
                [240, 244, 248, 255]
            } else if sdf(fx, fy, 16.0, 7.0) > 0.5 {
                [0, 0, 0, 0]
            } else if sdf(fx, fy, 13.5, 4.5) > 0.0 {
                [255, 213, 107, 255]
            } else {
                [22, 32, 46, 255]
            };
            let i = (y * 32 + x) * 4;
            assert_eq!(px[i..i + 4], want, "{x} {y}");
        }
    }
    let px = status::make_tray_icon(Some("in-match"));
    let i = (16 * 32 + 4) * 4;
    assert_eq!(px[i..i + 4], [90, 200, 250, 255]);
    // The border goes round, but for the corners.
    for t in 7..25usize {
        for (x, y) in [(0, t), (1, t), (30, t), (31, t), (t, 0), (t, 1), (t, 30), (t, 31)] {
            let i = (y * 32 + x) * 4;
            assert_eq!(px[i..i + 4], [240, 244, 248, 255], "{x} {y}");
        }
        for (x, y) in [(2, t), (29, t), (t, 2), (t, 29)] {
            let i = (y * 32 + x) * 4;
            assert_eq!(px[i..i + 4], [90, 200, 250, 255], "{x} {y}");
        }
    }
    for (x, y) in [(0usize, 0usize), (31, 0), (0, 31), (31, 31)] {
        let i = (y * 32 + x) * 4;
        assert_eq!(px[i..i + 4], [0, 0, 0, 0]);
    }
}

#[test]
fn a_made_up_match_comes_and_goes() {
    let mut app = AppState::new();
    let mut ranks = RankService::new();
    let mut forms = FormService::new(String::new());
    let (mut run, wait) = MockRun::begin("76561198079796198".to_string(), &mut app);
    assert_eq!(wait, 6000);
    assert_eq!(app.my.nickname, "调试玩家");
    assert_eq!((app.my.rank_label.as_str(), app.my.rank_score), ("A+", Some(2100)));
    let s = app.my.stats.as_ref().unwrap();
    assert_eq!(s.win_rate.unwrap().bits, 0.51f64.to_bits());
    assert_eq!(s.rws.unwrap().bits, 11.5f64.to_bits());

    assert_eq!(run.step(&mut app, &mut ranks, &mut forms, 10, 20), 3000);
    assert_eq!(run.phase, Phase::Playing { left: 8 });
    assert_eq!(app.my.ws_status, "in-match");
    let m = app.match_state.as_ref().unwrap();
    assert_eq!((m.match_id.as_str(), m.map.as_str()), ("MOCK-1", "de_mirage"));
    assert_eq!(m.players.len(), 10);
    for (i, p) in m.players.iter().enumerate() {
        assert_eq!(p.side, if i < 5 { "CT" } else { "T" });
        assert_eq!(p.kill, 24 - 2 * i as u32);
        assert_eq!(p.death, 10 + i as u32);
        assert_eq!(p.assist, 6 - (i as u32 % 5));
        assert_eq!(p.adr.unwrap().bits, (95.0 - i as f64 * 6.5).to_bits());
        assert_eq!(p.rating.unwrap().bits, (1.5 - i as f64 * 0.1).to_bits());
        assert!(ranks.name(&p.steam_id).is_some());
    }
    assert_eq!(m.players[1].steam_id, "765611900000012");
    assert_eq!(ranks.get("765611900000021").unwrap().label, "S 段");
    let low = ranks.get("765611900000022").unwrap().stars.unwrap();
    let high = ranks.get("765611900000021").unwrap().stars.unwrap();
    assert!(low < 50 && high >= 50);
    // Nobody has to be looked up.
    let shot = state::build_api_state(&app, &ranks, &mut forms, true, 21);
    assert!(shot.queue.is_empty());
    assert_eq!(shot.api.match_info.unwrap().my_side, "CT");

    for _ in 0..7 {
        assert_eq!(run.step(&mut app, &mut ranks, &mut forms, 11, 22), 3000);
    }
    let m = app.match_state.as_ref().unwrap();
    assert_eq!((m.ct_score, m.t_score), (11, 5));
    assert_eq!(run.step(&mut app, &mut ranks, &mut forms, 12, 23), 6000);
    assert!(app.match_state.is_none());
    assert_eq!((run.phase, app.my.ws_status.as_str(), app.updated_at), (Phase::Waiting, "idle", 12));
    run.step(&mut app, &mut ranks, &mut forms, 13, 24);
    assert_eq!(app.match_state.as_ref().unwrap().match_id, "MOCK-2");
}

#[test]
fn the_roster_is_of_all_tiers() {
    let list = mock::roster();
    assert_eq!(list.len(), 10);
    assert_eq!(list[9].nick, "IGL_站桩");
    assert_eq!(list[6].score, 2520);
    assert_eq!(list[0].form, vec![true, false, true, true, false]);
    assert_eq!(mock::sid_of("00000012"), "765611900000012");
}
