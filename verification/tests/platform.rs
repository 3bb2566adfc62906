use wmpvp_rank_overlay::json::{Json, JsonNumber};
use wmpvp_rank_overlay::number::Real;
use wmpvp_rank_overlay::wmpvp::{self, Method, ReplyError, Score, StatsError, User};

fn whole(n: i64) -> Json {
    Json::Number(JsonNumber {
        signed: Some(n),
        unsigned: if n >= 0 { Some(n as u64) } else { None },
        double: Some(Real { bits: (n as f64).to_bits() }),
    })
}

fn double(x: f64) -> Json {
    Json::Number(JsonNumber { signed: None, unsigned: None, double: Some(Real { bits: x.to_bits() }) })
}

fn text(s: &str) -> Json {
    Json::Text(s.to_string())
}

fn object(fields: Vec<(&str, Json)>) -> Json {
    Json::Object(fields.into_iter().map(|(k, v)| (k.to_string(), v)).collect())
}

#[test]
fn digests_are_those_of_md5() {
    assert_eq!(wmpvp::md5_hex(""), "d41d8cd98f00b204e9800998ecf8427e");
    assert_eq!(wmpvp::md5_hex("abc"), "900150983cd24fb0d6963f7d28e17f72");
    assert_eq!(wmpvp::hex_text(&vec![0, 15, 16, 255]), "000f10ff");
}

#[test]
fn the_search_carries_the_keyword_as_json() {
    let q = wmpvp::search_request("76561198079796198");
    assert_eq!(q.method, Method::Post);
    assert_eq!(q.url, "https://appengine.wmpvp.com/steamcn/app/search/user");
    assert_eq!(q.body.as_deref(), Some("{\"keyword\":\"76561198079796198\",\"page\":1}"));
    assert_eq!(q.headers[0], ("Accept".to_string(), "application/json, text/plain, */*".to_string()));
    let q = wmpvp::search_request("a\"b\n");
    assert_eq!(q.body.as_deref(), Some("{\"keyword\":\"a\\\"b\\n\",\"page\":1}"));
    let q = wmpvp::search_request("\\\u{8}\t\u{c}\r\u{0}\u{1f}\u{b}\u{7f}/\u{e9}段");
    assert_eq!(
        q.body.as_deref(),
        Some("{\"keyword\":\"\\\\\\b\\t\\f\\r\\u0000\\u001f\\u000b\u{7f}/\u{e9}段\",\"page\":1}")
    );
}

#[test]
fn the_search_reply_needs_the_code_one() {
    let body = object(vec![("code", whole(1)), ("result", Json::Array(vec![]))]);
    assert!(matches!(wmpvp::search_reply(&body), Ok(Some(Json::Array(_)))));
    let body = object(vec![("code", whole(1))]);
    assert!(matches!(wmpvp::search_reply(&body), Ok(None)));
    let body = object(vec![("code", whole(2)), ("result", Json::Null)]);
    assert!(matches!(wmpvp::search_reply(&body), Err(ReplyError::Refused)));
    assert!(matches!(wmpvp::search_reply(&Json::Null), Err(ReplyError::Refused)));
}

#[test]
fn only_the_exact_account_is_picked() {
    let u = |id: &str, nick: &str| User {
        nickname: Some(nick.to_string()),
        steam_id: Some(id.to_string()),
        avatar: None,
        score: Some(Score::Text(Some(Real { bits: 1500.0f64.to_bits() }))),
    };
    let list = vec![u("1234", "no"), u(" 123 ", "yes"), u("123", "late")];
    let found = wmpvp::pick_user(&list, "123 ").unwrap();
    assert_eq!(found.nickname.as_deref(), Some("yes"));
    assert_eq!(found.steam_id(), "123");
    assert_eq!(found.score_num().unwrap().bits, 1500.0f64.to_bits());
    assert!(wmpvp::pick_user(&list, "9").is_none());
}

#[test]
fn the_address_request_is_signed() {
    let q = wmpvp::websocket_request(" 765 ");
    let sign = wmpvp::md5_hex(&format!("steamId=765&securityKey={}", wmpvp::SECURITY_KEY));
    assert_eq!(q.method, Method::Get);
    assert_eq!(
        q.url,
        format!("{}?steamId=765&platform=2&sign={}", wmpvp::WS_INFO_URL, sign)
    );
    assert_eq!(sign.len(), 32);
    assert_eq!(q.body, None);
}

#[test]
fn the_address_is_taken_from_the_reply() {
    let result = object(vec![("websocketUrl", text("wss://x"))]);
    let body = object(vec![("code", whole(1)), ("result", result)]);
    assert_eq!(wmpvp::websocket_reply(&body).unwrap(), "wss://x");
    let body = object(vec![("code", whole(1)), ("result", object(vec![]))]);
    assert_eq!(wmpvp::websocket_reply(&body), Err(ReplyError::NoAddress));
    let body = object(vec![("code", whole(0))]);
    assert_eq!(wmpvp::websocket_reply(&body), Err(ReplyError::Refused));
}

#[test]
fn the_results_request_needs_token_and_account() {
    assert!(wmpvp::results_request(" ", "1", 5).is_none());
    assert!(wmpvp::results_request("t", "", 5).is_none());
    let q = wmpvp::results_request(" t ", " 1 ", 5).unwrap();
    assert_eq!(
        q.body.as_deref(),
        Some("{\"csgoSeasonId\":\"recent\",\"dataSource\":3,\"mySteamId\":0,\"page\":1,\"pageSize\":5,\"pvpType\":-1,\"toSteamId\":\"1\"}")
    );
    assert!(q.headers.contains(&("token".to_string(), "t".to_string())));
}

#[test]
fn results_are_those_of_the_first_matches() {
    let m = |team: i64, win: i64| object(vec![("team", whole(team)), ("winTeam", whole(win))]);
    let list = Json::Array(vec![m(1, 1), m(1, 2), object(vec![("team", whole(1))]), m(2, 2), m(2, 2)]);
    let body = object(vec![("statusCode", whole(0)), ("data", object(vec![("matchList", list)]))]);
    assert_eq!(wmpvp::results_reply(&body, 4).unwrap(), vec![true, false, true]);
    assert_eq!(wmpvp::results_reply(&body, 9).unwrap(), vec![true, false, true, true]);
    let body = object(vec![("statusCode", whole(0))]);
    assert_eq!(wmpvp::results_reply(&body, 4).unwrap(), Vec::<bool>::new());
    let body = object(vec![("statusCode", whole(7))]);
    assert_eq!(wmpvp::results_reply(&body, 4), Ok(Vec::new()));
    let list = Json::Array(vec![m(1, 1)]);
    let body = object(vec![("statusCode", whole(7)), ("data", object(vec![("matchList", list)]))]);
    assert_eq!(wmpvp::results_reply(&body, 4), Ok(Vec::new()));
}

#[test]
fn the_statistics_request_needs_a_number() {
    assert!(wmpvp::stats_request("t", "abc").is_none());
    assert!(wmpvp::stats_request("", "5").is_none());
    let q = wmpvp::stats_request(" t", " 76561198079796198 ").unwrap();
    assert_eq!(
        q.body.as_deref(),
        Some("{\"accessToken\":\"\",\"mySteamId\":0,\"toSteamId\":76561198079796198}")
    );
    assert_eq!(q.url, wmpvp::DETAIL_STATS_URL);
}

#[test]
fn statistics_and_their_refusals() {
    let data = object(vec![
        ("seasonId", text("S24")),
        ("pwRating", double(1.16)),
        ("cnt", whole(144)),
        ("stars", whole(3)),
        ("summary", text("x")),
    ]);
    let body = object(vec![("statusCode", whole(0)), ("data", data)]);
    let s = match wmpvp::stats_reply(&body) {
        Ok(Some(s)) => s,
        _ => panic!(),
    };
    assert_eq!(s.season_id, "S24");
    assert_eq!(s.pw_rating.unwrap().bits, 1.16f64.to_bits());
    assert_eq!(s.cnt, Some(144));
    assert_eq!(s.stars, Some(3));
    assert_eq!(s.summary.as_deref(), Some("x"));
    assert!(s.adr.is_none());

    let body = object(vec![("statusCode", whole(0)), ("data", Json::Null)]);
    assert!(matches!(wmpvp::stats_reply(&body), Ok(None)));
    let body = object(vec![("statusCode", whole(4001))]);
    assert!(matches!(wmpvp::stats_reply(&body), Err(StatsError::LoginExpired)));
    let body = object(vec![("statusCode", whole(5)), ("errorMessage", text("busy"))]);
    match wmpvp::stats_reply(&body) {
        Err(StatsError::Other(e)) => assert_eq!(e, "detailStats statusCode=5: busy"),
        _ => panic!(),
    }
    match wmpvp::stats_reply(&Json::Null) {
        Err(StatsError::Other(e)) => assert_eq!(e, "detailStats statusCode=-1: "),
        _ => panic!(),
    }
    match wmpvp::stats_network_error("down") {
        StatsError::Other(e) => assert_eq!(e, "detailStats 网络错误: down"),
        _ => panic!(),
    }
    match wmpvp::stats_decode_error("eof") {
        StatsError::Other(e) => assert_eq!(e, "detailStats 响应解析失败: eof"),
        _ => panic!(),
    }
}
