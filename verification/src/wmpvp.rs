//! The platform's public interface: the requests that are sent, and how replies are read.
//!
//! - `search/user` finds a player by account id: nickname, avatar, ladder score.
//! - `getWebsocketInfo` trades a signature for the address of the live match feed.
//! - `match/list` and `detailStats` give recent results and season statistics; both need a token.

use crate::json;
use crate::json::Json;
use crate::number::Real;
use crate::text;
use vstd::prelude::*;
use vstd::string::*;
use vstd::utf8::*;

verus! {

/// The key that signs requests for the address of the live feed.
pub const SECURITY_KEY: &'static str = "b2K%$5k*o^j!@Qp";

pub const SEARCH_URL: &'static str = "https://appengine.wmpvp.com/steamcn/app/search/user";

pub const WS_INFO_URL: &'static str =
    "https://appactivity.wmpvp.com/steamcn/match/watchStage/getWebsocketInfo";

pub const MATCH_LIST_URL: &'static str = "https://api.wmpvp.com/api/csgo/home/match/list";

pub const DETAIL_STATS_URL: &'static str = "https://api.wmpvp.com/api/csgo/home/pvp/detailStats";

/// The browser that requests claim to come from.
pub const UA: &'static str =
    "Mozilla/5.0 (Windows NT 10.0; Win64; x64) AppleWebKit/537.36 (KHTML, like Gecko) Chrome/126.0.0.0 Safari/537.36";

/// `match/list` answers only to this generation of the app.
pub const MATCH_APP_VERSION: &'static str = "4.1.2.219";

pub const APP_VERSION: &'static str = "3.5.4.172";

/// The score of a user entry as it came: a number, a text with the number that it reads as once
/// trimmed, or something else.
#[derive(Clone, Copy, PartialEq, Eq, Structural, Debug)]
pub enum Score {
    Number(Option<Real>),
    Text(Option<Real>),
    Other,
}

/// An entry of the reply of `search/user`.
pub struct User {
    pub nickname: Option<String>,
    pub steam_id: Option<String>,
    pub avatar: Option<String>,
    pub score: Option<Score>,
}

impl User {
    /// The account id without outer white space; empty where there is none.
    pub open spec fn id(self) -> Seq<char> {
        text::trimmed(text::text_or_empty(text::opt_text(self.steam_id)))
    }

    /// The score as a number.
    pub open spec fn score_value(self) -> Option<Real> {
        match self.score {
            Some(Score::Number(n)) => n,
            Some(Score::Text(n)) => n,
            _ => None,
        }
    }

    /// The account id without outer white space; empty where there is none.
    pub fn steam_id(&self) -> (r: String)
        ensures
            r@ == self.id(),
    {
        text::trimmed_or_empty(&self.steam_id)
    }

    /// The score as a number.
    pub fn score_num(&self) -> (r: Option<Real>)
        ensures
            r == self.score_value(),
    {
        match self.score {
            Some(Score::Number(n)) => n,
            Some(Score::Text(n)) => n,
            _ => None,
        }
    }
}

impl Clone for User {
    fn clone(&self) -> (r: Self)
        ensures
            r == *self,
    {
        User {
            nickname: self.nickname.clone(),
            steam_id: self.steam_id.clone(),
            avatar: self.avatar.clone(),
            score: self.score,
        }
    }
}

/// The first user whose id is `sid`.
pub open spec fn user_with_id(users: Seq<User>, sid: Seq<char>) -> Option<User>
    decreases users.len(),
{
    if users.len() == 0 {
        None
    } else if users.first().id() == sid {
        Some(users.first())
    } else {
        user_with_id(users.drop_first(), sid)
    }
}

/// Picks the user whose id is exactly the one that was searched for.
pub fn pick_user(users: &Vec<User>, steam_id: &str) -> (r: Option<User>)
    ensures
        r == user_with_id(users@, text::trimmed(steam_id@)),
{
    let sid = text::trim(steam_id);
    let mut i: usize = 0;
    assert(users@.skip(0) == users@);
    while i < users.len()
        invariant
            i <= users@.len(),
            sid@ == text::trimmed(steam_id@),
            user_with_id(users@, sid@) == user_with_id(users@.skip(i as int), sid@),
        decreases users@.len() - i,
    {
        assert(users@.skip(i as int).drop_first() == users@.skip(i + 1));
        if users[i].steam_id() == sid {
            return Some(users[i].clone());
        }
        i += 1;
    }
    None
}

/// The method of a request.
#[derive(Clone, Copy, PartialEq, Eq, Structural, Debug)]
pub enum Method {
    Get,
    Post,
}

/// A request to the platform.
pub struct HttpRequest {
    pub method: Method,
    pub url: String,
    pub headers: Vec<(String, String)>,
    pub body: Option<String>,
}

/// A request, by its characters.
pub struct HttpRequestView {
    pub method: Method,
    pub url: Seq<char>,
    pub headers: Seq<(Seq<char>, Seq<char>)>,
    pub body: Option<Seq<char>>,
}

impl View for HttpRequest {
    type V = HttpRequestView;

    open spec fn view(&self) -> HttpRequestView {
        HttpRequestView {
            method: self.method,
            url: self.url@,
            headers: text::text_pairs(self.headers@),
            body: text::opt_text(self.body),
        }
    }
}

/// Why a reply holds nothing usable.
#[derive(Clone, Copy, PartialEq, Eq, Structural, Debug)]
pub enum ReplyError {
    /// The reply reports no success.
    Refused,
    /// The reply reports success without the address that was asked for.
    NoAddress,
}

/// The search for `keyword`.
pub open spec fn search_request_view(keyword: Seq<char>) -> HttpRequestView {
    HttpRequestView {
        method: Method::Post,
        url: SEARCH_URL@,
        headers: seq![
            ("Accept"@, "application/json, text/plain, */*"@),
            ("Referer"@, "https://client.wmpvp.com"@),
            ("Origin"@, "https://news.wmpvp.com"@),
            ("x-requested-with"@, "XMLHttpRequest"@),
            ("Content-Type"@, "application/json;charset=UTF-8"@),
        ],
        body: Some("{\"keyword\":"@ + json::quoted(keyword) + ",\"page\":1}"@),
    }
}

/// The search for a nickname or an account id.
pub fn search_request(keyword: &str) -> (r: HttpRequest)
    ensures
        r@ == search_request_view(keyword@),
{
    let mut headers: Vec<(String, String)> = Vec::new();
    text::push_pair(&mut headers, "Accept", "application/json, text/plain, */*");
    text::push_pair(&mut headers, "Referer", "https://client.wmpvp.com");
    text::push_pair(&mut headers, "Origin", "https://news.wmpvp.com");
    text::push_pair(&mut headers, "x-requested-with", "XMLHttpRequest");
    text::push_pair(&mut headers, "Content-Type", "application/json;charset=UTF-8");
    let mut body = "{\"keyword\":".to_owned();
    body.append(json::quote(keyword).as_str());
    body.append(",\"page\":1}");
    let r = HttpRequest {
        method: Method::Post,
        url: SEARCH_URL.to_owned(),
        headers,
        body: Some(body),
    };
    assert(r@.headers == search_request_view(keyword@).headers);
    r
}

/// The reply of `search/user`: the member `result` where the code is 1.
pub fn search_reply(body: &Json) -> (r: Result<Option<&Json>, ReplyError>)
    ensures
        match r {
            Ok(Some(v)) => json::int_in(body.field("code"@)) == Some(1i64) && body.field("result"@) == Some(*v),
            Ok(None) => json::int_in(body.field("code"@)) == Some(1i64) && body.field("result"@) is None,
            Err(e) => json::int_in(body.field("code"@)) != Some(1i64) && e == ReplyError::Refused,
        },
{
    match body.int_at("code") {
        Some(1) => Ok(body.get("result")),
        _ => Err(ReplyError::Refused),
    }
}

/// The MD5 digest of some bytes.
pub uninterp spec fn md5_of(bytes: Seq<u8>) -> Seq<u8>;

/// `md5::Md5::digest`: the MD5 digest of the text's UTF-8 bytes, sixteen bytes long. The digest
/// itself is only named.
#[verifier::external_body]
pub(crate) fn md5_digest(input: &str) -> (r: Vec<u8>)
    ensures
        r@ == md5_of(encode_utf8(input@)),
        r@.len() == 16,
{
    <md5::Md5 as md5::Digest>::digest(input.as_bytes()).to_vec()
}

/// The hexadecimal digit of `d`, in lower case.
pub open spec fn hex_char(d: int) -> char {
    if d < 10 {
        ('0' as u32 + d) as char
    } else {
        ('a' as u32 + (d - 10)) as char
    }
}

/// The bytes in hexadecimal, two digits each.
pub open spec fn hex(bytes: Seq<u8>) -> Seq<char>
    decreases bytes.len(),
{
    if bytes.len() == 0 {
        Seq::empty()
    } else {
        hex(bytes.drop_last()).push(hex_char((bytes.last() / 16) as int)).push(
            hex_char((bytes.last() % 16) as int),
        )
    }
}

fn hex_digit(d: u8) -> (r: char)
    requires
        d < 16,
    ensures
        r == hex_char(d as int),
{
    match d {
        0 => '0',
        1 => '1',
        2 => '2',
        3 => '3',
        4 => '4',
        5 => '5',
        6 => '6',
        7 => '7',
        8 => '8',
        9 => '9',
        10 => 'a',
        11 => 'b',
        12 => 'c',
        13 => 'd',
        14 => 'e',
        _ => 'f',
    }
}

/// Writes bytes in hexadecimal.
pub fn hex_text(bytes: &Vec<u8>) -> (r: String)
    ensures
        r@ == hex(bytes@),
{
    let mut out = String::new();
    let mut i: usize = 0;
    assert(bytes@.take(0) == Seq::<u8>::empty());
    while i < bytes.len()
        invariant
            i <= bytes@.len(),
            out@ == hex(bytes@.take(i as int)),
        decreases bytes@.len() - i,
    {
        assert(bytes@.take(i + 1).drop_last() == bytes@.take(i as int));
        out.push(hex_digit(bytes[i] / 16));
        out.push(hex_digit(bytes[i] % 16));
        i += 1;
    }
    assert(bytes@.take(i as int) == bytes@);
    out
}

/// The MD5 digest of a text in hexadecimal.
pub fn md5_hex(input: &str) -> (r: String)
    ensures
        r@ == hex(md5_of(encode_utf8(input@))),
{
    hex_text(&md5_digest(input))
}

/// What the request for the feed's address signs.
pub open spec fn signed_text(sid: Seq<char>) -> Seq<char> {
    "steamId="@ + sid + "&securityKey="@ + SECURITY_KEY@
}

/// The request for the feed's address, with the signature `sign`.
pub open spec fn websocket_request_view(sid: Seq<char>, sign: Seq<char>) -> HttpRequestView {
    HttpRequestView {
        method: Method::Get,
        url: WS_INFO_URL@ + "?steamId="@ + sid + "&platform=2&sign="@ + sign,
        headers: seq![
            ("Accept"@, "application/json, text/plain, */*"@),
            ("Referer"@, "https://client.wmpvp.com"@),
        ],
        body: None,
    }
}

/// The request for the feed's address that carries a given signature.
pub fn websocket_request_signed(sid: &str, sign: &str) -> (r: HttpRequest)
    ensures
        r@ == websocket_request_view(sid@, sign@),
{
    let mut headers: Vec<(String, String)> = Vec::new();
    text::push_pair(&mut headers, "Accept", "application/json, text/plain, */*");
    text::push_pair(&mut headers, "Referer", "https://client.wmpvp.com");
    let mut url = WS_INFO_URL.to_owned();
    url.append("?steamId=");
    url.append(sid);
    url.append("&platform=2&sign=");
    url.append(sign);
    let r = HttpRequest { method: Method::Get, url, headers, body: None };
    assert(r@.headers == websocket_request_view(sid@, sign@).headers);
    r
}

/// The signed request for the address of the live feed of an account.
pub fn websocket_request(steam_id: &str) -> (r: HttpRequest)
    ensures
        r@ == websocket_request_view(
            text::trimmed(steam_id@),
            hex(md5_of(encode_utf8(signed_text(text::trimmed(steam_id@))))),
        ),
{
    let sid = text::trim(steam_id);
    let mut plain = "steamId=".to_owned();
    plain.append(sid.as_str());
    plain.append("&securityKey=");
    plain.append(SECURITY_KEY);
    let sign = md5_hex(plain.as_str());
    websocket_request_signed(sid.as_str(), sign.as_str())
}

/// The reply of `getWebsocketInfo`: the address where the code is 1.
pub fn websocket_reply(body: &Json) -> (r: Result<String, ReplyError>)
    ensures
        match r {
            Ok(url) => json::int_in(body.field("code"@)) == Some(1i64) && json::text_in(
                json::inner_member(*body, "result"@, "websocketUrl"@),
            ) == Some(url@),
            Err(ReplyError::Refused) => json::int_in(body.field("code"@)) != Some(1i64),
            Err(ReplyError::NoAddress) => json::int_in(body.field("code"@)) == Some(1i64)
                && json::text_in(json::inner_member(*body, "result"@, "websocketUrl"@)) is None,
        },
{
    match body.int_at("code") {
        Some(1) => {},
        _ => {
            return Err(ReplyError::Refused);
        },
    }
    match body.get_inner("result", "websocketUrl") {
        Some(v) => match v.as_str() {
            Some(url) => Ok(url.to_owned()),
            None => Err(ReplyError::NoAddress),
        },
        None => Err(ReplyError::NoAddress),
    }
}

/// The request for the last `limit` results of an account.
pub open spec fn results_request_view(token: Seq<char>, to: Seq<char>, limit: nat) -> HttpRequestView {
    HttpRequestView {
        method: Method::Post,
        url: MATCH_LIST_URL@,
        headers: seq![
            ("appversion"@, MATCH_APP_VERSION@),
            ("platform"@, "HarmonyOS"@),
            ("gametype"@, "2"@),
            ("gametypestr"@, "2"@),
            ("token"@, token),
            ("User-Agent"@, "libcurl-agent/1.0"@),
            ("Content-Type"@, "application/json"@),
        ],
        body: Some(
            "{\"csgoSeasonId\":\"recent\",\"dataSource\":3,\"mySteamId\":0,\"page\":1,\"pageSize\":"@
                + text::decimal(limit) + ",\"pvpType\":-1,\"toSteamId\":"@ + json::quoted(to)
                + "}"@,
        ),
    }
}

/// The request for the last results of an account; none where the account or the token is
/// missing.
pub fn results_request(token: &str, to_steam_id: &str, limit: usize) -> (r: Option<HttpRequest>)
    ensures
        match r {
            None => text::trimmed(to_steam_id@).len() == 0 || text::trimmed(token@).len() == 0,
            Some(q) => text::trimmed(to_steam_id@).len() > 0 && text::trimmed(token@).len() > 0 && q@
                == results_request_view(
                text::trimmed(token@),
                text::trimmed(to_steam_id@),
                limit as nat,
            ),
        },
{
    let to = text::trim(to_steam_id);
    let tok = text::trim(token);
    if to.as_str().is_empty() || tok.as_str().is_empty() {
        return None;
    }
    let mut headers: Vec<(String, String)> = Vec::new();
    text::push_pair(&mut headers, "appversion", MATCH_APP_VERSION);
    text::push_pair(&mut headers, "platform", "HarmonyOS");
    text::push_pair(&mut headers, "gametype", "2");
    text::push_pair(&mut headers, "gametypestr", "2");
    text::push_pair(&mut headers, "token", tok.as_str());
    text::push_pair(&mut headers, "User-Agent", "libcurl-agent/1.0");
    text::push_pair(&mut headers, "Content-Type", "application/json");
    let mut body =
        "{\"csgoSeasonId\":\"recent\",\"dataSource\":3,\"mySteamId\":0,\"page\":1,\"pageSize\":".to_owned();
    body.append(text::decimal_text(limit as u64).as_str());
    body.append(",\"pvpType\":-1,\"toSteamId\":");
    body.append(json::quote(to.as_str()).as_str());
    body.append("}");
    let q = HttpRequest {
        method: Method::Post,
        url: MATCH_LIST_URL.to_owned(),
        headers,
        body: Some(body),
    };
    assert(q@.headers == results_request_view(tok@, to@, limit as nat).headers);
    Some(q)
}

/// Whether a match was won: the own team is the winner. Unknown where either is missing.
pub open spec fn won(item: Json) -> Option<bool> {
    match (json::int_in(item.field("team"@)), json::int_in(item.field("winTeam"@))) {
        (Some(team), Some(win)) => Some(team == win),
        _ => None,
    }
}

/// The known results of the matches, in order.
pub open spec fn known_results(items: Seq<Json>) -> Seq<bool>
    decreases items.len(),
{
    if items.len() == 0 {
        Seq::empty()
    } else {
        let before = known_results(items.drop_last());
        match won(items.last()) {
            Some(w) => before.push(w),
            None => before,
        }
    }
}

/// The first `n` elements of the member `matchList` of `data`; none where it is no array.
pub open spec fn listed_matches(body: Json, n: nat) -> Seq<Json> {
    match json::inner_member(body, "data"@, "matchList"@) {
        Some(Json::Array(v)) => if v@.len() <= n {
            v@
        } else {
            v@.take(n as int)
        },
        _ => Seq::empty(),
    }
}

/// The reply of `match/list`: the known results of the first `limit` matches, latest first. A reply
/// that reports an error, or that lists no matches, gives none.
pub fn results_reply(body: &Json, limit: usize) -> (r: Result<Vec<bool>, ReplyError>)
    ensures
        r matches Ok(v) && v@ == (if json::int_in(body.field("statusCode"@)) == Some(0i64) {
            known_results(listed_matches(*body, limit as nat))
        } else {
            Seq::empty()
        }),
{
    match body.int_at("statusCode") {
        Some(0) => {},
        _ => {
            return Ok(Vec::new());
        },
    }
    let mut out: Vec<bool> = Vec::new();
    let list = match body.get_inner("data", "matchList") {
        Some(v) => match v.as_array() {
            Some(list) => list,
            None => {
                return Ok(out);
            },
        },
        None => {
            return Ok(out);
        },
    };
    let ghost items = listed_matches(*body, limit as nat);
    let n: usize = if list.len() <= limit {
        list.len()
    } else {
        limit
    };
    let mut i: usize = 0;
    assert(list@.take(0) == Seq::<Json>::empty());
    while i < n
        invariant
            i <= n <= list@.len(),
            out@ == known_results(list@.take(i as int)),
        decreases n - i,
    {
        assert(list@.take(i + 1).drop_last() == list@.take(i as int));
        assert(list@.take(i + 1).last() == list@[i as int]);
        match (list[i].int_at("team"), list[i].int_at("winTeam")) {
            (Some(team), Some(win)) => {
                out.push(team == win);
            },
            _ => {},
        }
        i += 1;
    }
    assert(list@.take(n as int) == items);
    Ok(out)
}

/// Season statistics of an account.
pub struct DetailStats {
    pub season_id: String,
    pub avg_we: Option<Real>,
    pub pw_rating: Option<Real>,
    pub cnt: Option<u32>,
    pub adr: Option<Real>,
    pub win_rate: Option<Real>,
    pub kd: Option<Real>,
    pub head_shot_ratio: Option<Real>,
    pub rws: Option<Real>,
    pub stars: Option<u32>,
    pub summary: Option<String>,
}

/// Why there are no season statistics.
pub enum StatsError {
    /// The token is no longer valid.
    LoginExpired,
    Other(String),
}

/// The request for the season statistics of the account `to`.
pub open spec fn stats_request_view(token: Seq<char>, to: int) -> HttpRequestView {
    HttpRequestView {
        method: Method::Post,
        url: DETAIL_STATS_URL@,
        headers: seq![
            ("Accept"@, "application/json, text/plain, */*"@),
            ("appversion"@, APP_VERSION@),
            ("platform"@, "android"@),
            ("token"@, token),
            ("User-Agent"@, "okhttp/4.9.2"@),
            ("Content-Type"@, "application/json"@),
        ],
        body: Some(
            "{\"accessToken\":\"\",\"mySteamId\":0,\"toSteamId\":"@ + text::signed_decimal(to)
                + "}"@,
        ),
    }
}

/// The account number that a text reads as, 0 where it reads as none.
pub open spec fn account_number(s: Seq<char>) -> int {
    match text::read_signed(text::trimmed(s)) {
        Some(n) => n,
        None => 0,
    }
}

/// The request for season statistics; none where the account is no number or the token is
/// missing.
pub fn stats_request(token: &str, to_steam_id: &str) -> (r: Option<HttpRequest>)
    ensures
        match r {
            None => account_number(to_steam_id@) == 0 || text::trimmed(token@).len() == 0,
            Some(q) => account_number(to_steam_id@) != 0 && text::trimmed(token@).len() > 0 && q@
                == stats_request_view(text::trimmed(token@), account_number(to_steam_id@)),
        },
{
    let to: i64 = match text::parse_signed(text::trim(to_steam_id).as_str()) {
        Some(n) => n,
        None => 0,
    };
    let tok = text::trim(token);
    if to == 0 || tok.as_str().is_empty() {
        return None;
    }
    let mut headers: Vec<(String, String)> = Vec::new();
    text::push_pair(&mut headers, "Accept", "application/json, text/plain, */*");
    text::push_pair(&mut headers, "appversion", APP_VERSION);
    text::push_pair(&mut headers, "platform", "android");
    text::push_pair(&mut headers, "token", tok.as_str());
    text::push_pair(&mut headers, "User-Agent", "okhttp/4.9.2");
    text::push_pair(&mut headers, "Content-Type", "application/json");
    let mut body = "{\"accessToken\":\"\",\"mySteamId\":0,\"toSteamId\":".to_owned();
    body.append(text::signed_decimal_text(to).as_str());
    body.append("}");
    let q = HttpRequest {
        method: Method::Post,
        url: DETAIL_STATS_URL.to_owned(),
        headers,
        body: Some(body),
    };
    assert(q@.headers == stats_request_view(tok@, to as int).headers);
    Some(q)
}

/// The low 32 bits of an optional count.
pub open spec fn low_half(n: Option<u64>) -> Option<u32> {
    match n {
        Some(v) => Some((v % 0x1_0000_0000) as u32),
        None => None,
    }
}

fn low_half_of(n: Option<u64>) -> (r: Option<u32>)
    ensures
        r == low_half(n),
{
    match n {
        Some(v) => Some((v % 0x1_0000_0000) as u32),
        None => None,
    }
}

/// `s` holds the statistics that the value `data` lists.
pub open spec fn stats_in(data: Json, s: DetailStats) -> bool {
    &&& s.season_id@ == text::text_or_empty(json::text_in(data.field("seasonId"@)))
    &&& s.avg_we == json::double_in(data.field("avgWe"@))
    &&& s.pw_rating == json::double_in(data.field("pwRating"@))
    &&& s.cnt == low_half(json::uint_in(data.field("cnt"@)))
    &&& s.adr == json::double_in(data.field("adr"@))
    &&& s.win_rate == json::double_in(data.field("winRate"@))
    &&& s.kd == json::double_in(data.field("kd"@))
    &&& s.head_shot_ratio == json::double_in(data.field("headShotRatio"@))
    &&& s.rws == json::double_in(data.field("rws"@))
    &&& s.stars == low_half(json::uint_in(data.field("stars"@)))
    &&& text::opt_text(s.summary) == json::text_in(data.field("summary"@))
}

/// The status code of a reply of `detailStats`, -1 where there is none.
pub open spec fn stats_code(body: Json) -> int {
    match json::int_in(body.field("statusCode"@)) {
        Some(c) => c as int,
        None => -1,
    }
}

/// What a refusal of `detailStats` with this code is reported as.
pub open spec fn refusal_text(body: Json) -> Seq<char> {
    "detailStats statusCode="@ + text::signed_decimal(stats_code(body)) + ": "@
        + text::text_or_empty(json::text_in(body.field("errorMessage"@)))
}

/// The reply of `detailStats`: the code 4001 means that the token expired, any other but 0 a
/// refusal; no data means no statistics.
pub fn stats_reply(body: &Json) -> (r: Result<Option<DetailStats>, StatsError>)
    ensures
        match r {
            Err(StatsError::LoginExpired) => stats_code(*body) == 4001,
            Err(StatsError::Other(e)) => stats_code(*body) != 4001 && stats_code(*body) != 0 && e@
                == refusal_text(*body),
            Ok(None) => stats_code(*body) == 0 && (body.field("data"@) is None || body.field(
                "data"@,
            ) == Some(Json::Null)),
            Ok(Some(s)) => stats_code(*body) == 0 && body.field("data"@) is Some && body.field(
                "data"@,
            ) != Some(Json::Null) && stats_in(body.field("data"@)->0, s),
        },
{
    let code: i64 = match body.int_at("statusCode") {
        Some(c) => c,
        None => -1,
    };
    if code == 4001 {
        return Err(StatsError::LoginExpired);
    }
    if code != 0 {
        let mut msg = "detailStats statusCode=".to_owned();
        msg.append(text::signed_decimal_text(code).as_str());
        msg.append(": ");
        match body.text_at("errorMessage") {
            Some(e) => {
                msg.append(e);
            },
            None => {
                assert(msg@ + Seq::<char>::empty() == msg@);
            },
        }
        return Err(StatsError::Other(msg));
    }
    let data = match body.get("data") {
        Some(d) => match d {
            Json::Null => {
                return Ok(None);
            },
            _ => d,
        },
        None => {
            return Ok(None);
        },
    };
    Ok(
        Some(
            DetailStats {
                season_id: match data.text_at("seasonId") {
                    Some(s) => s.to_owned(),
                    None => String::new(),
                },
                avg_we: data.double_at("avgWe"),
                pw_rating: data.double_at("pwRating"),
                cnt: low_half_of(data.uint_at("cnt")),
                adr: data.double_at("adr"),
                win_rate: data.double_at("winRate"),
                kd: data.double_at("kd"),
                head_shot_ratio: data.double_at("headShotRatio"),
                rws: data.double_at("rws"),
                stars: low_half_of(data.uint_at("stars")),
                summary: match data.text_at("summary") {
                    Some(s) => Some(s.to_owned()),
                    None => None,
                },
            },
        ),
    )
}

/// How a failed request for season statistics is reported.
pub fn stats_network_error(reason: &str) -> (r: StatsError)
    ensures
        r matches StatsError::Other(e) && e@ == "detailStats 网络错误: "@ + reason@,
{
    let mut msg = "detailStats 网络错误: ".to_owned();
    msg.append(reason);
    StatsError::Other(msg)
}

/// How an unreadable reply of `detailStats` is reported.
pub fn stats_decode_error(reason: &str) -> (r: StatsError)
    ensures
        r matches StatsError::Other(e) && e@ == "detailStats 响应解析失败: "@ + reason@,
{
    let mut msg = "detailStats 响应解析失败: ".to_owned();
    msg.append(reason);
    StatsError::Other(msg)
}

/// The user that is picked is the first in the reply whose id, without outer white space, is the
/// one that was searched for; there is none exactly where nobody has that id.
pub proof fn law_picked_user_has_the_id(users: Seq<User>, sid: Seq<char>)
    ensures
        match user_with_id(users, sid) {
            Some(u) => exists|i: int|
                0 <= i < users.len() && #[trigger] users[i] == u && (match users[i].steam_id {
                    Some(id) => text::trimmed(id@) == sid,
                    None => sid.len() == 0,
                }) && forall|j: int| 0 <= j < i ==> (#[trigger] users[j]).id() != sid,
            None => forall|i: int|
                0 <= i < users.len() ==> (match (#[trigger] users[i]).steam_id {
                    Some(id) => text::trimmed(id@) != sid,
                    None => sid.len() > 0,
                }),
        },
    decreases users.len(),
{
    assert(text::trimmed(Seq::empty()) =~= Seq::empty());
    assert(sid.len() == 0 ==> sid =~= Seq::empty());
    if users.len() > 0 {
        let rest = users.drop_first();
        assert(users.first() == users[0]);
        if users[0].id() != sid {
            law_picked_user_has_the_id(rest, sid);
            match user_with_id(rest, sid) {
                Some(u) => {
                    let i = choose|i: int|
                        0 <= i < rest.len() && #[trigger] rest[i] == u && (match rest[i].steam_id {
                            Some(id) => text::trimmed(id@) == sid,
                            None => sid.len() == 0,
                        }) && forall|j: int| 0 <= j < i ==> (#[trigger] rest[j]).id() != sid;
                    assert(users[i + 1] == u);
                    assert forall|j: int| 0 <= j < i + 1 implies (#[trigger] users[j]).id() != sid by {
                        if j > 0 {
                            assert(users[j] == rest[j - 1]);
                        }
                    }
                },
                None => {
                    assert forall|i: int| 0 <= i < users.len() implies (match (
                    #[trigger] users[i]).steam_id {
                        Some(id) => text::trimmed(id@) != sid,
                        None => sid.len() > 0,
                    }) by {
                        if i > 0 {
                            assert(users[i] == rest[i - 1]);
                        }
                    }
                },
            }
        }
    }
}

/// A score counts as a number whether it came as one or as a text that reads as one.
pub proof fn law_score_may_be_a_text(user: User, n: Option<Real>)
    ensures
        user.score == Some(Score::Number(n)) ==> user.score_value() == n,
        user.score == Some(Score::Text(n)) ==> user.score_value() == n,
        user.score is None || user.score == Some(Score::Other) ==> user.score_value() is None,
{
}

/// A match of which the own and the winning team are known is won exactly where the two are the
/// same; so a match whose teams are exchanged has the same result. Without either there is none.
pub proof fn law_match_is_won_by_the_own_team(item: Json, other: Json, own: i64, winner: i64)
    requires
        json::int_in(item.field("team"@)) == Some(own),
        json::int_in(item.field("winTeam"@)) == Some(winner),
        json::int_in(other.field("team"@)) == Some(winner),
        json::int_in(other.field("winTeam"@)) == Some(own),
    ensures
        own == winner ==> won(item) == Some(true),
        own != winner ==> won(item) == Some(false),
        won(other) == won(item),
{
}

/// The results are those of the matches of which both teams are known, one each and in order, and
/// each is a win exactly where the own team is the winner.
pub proof fn law_results_are_those_of_the_known_matches(items: Seq<Json>)
    ensures
        ({
            let known = items.filter(
                |m: Json|
                    json::int_in(m.field("team"@)) is Some && json::int_in(
                        m.field("winTeam"@),
                    ) is Some,
            );
            &&& known_results(items).len() == known.len()
            &&& forall|i: int|
                0 <= i < known.len() ==> (#[trigger] known_results(items)[i] <==> json::int_in(
                    known[i].field("team"@),
                ) == json::int_in(known[i].field("winTeam"@)))
        }),
    decreases items.len(),
{
    reveal(Seq::filter);
    let both = |m: Json|
        json::int_in(m.field("team"@)) is Some && json::int_in(m.field("winTeam"@)) is Some;
    if items.len() > 0 {
        law_results_are_those_of_the_known_matches(items.drop_last());
        let known = items.drop_last().filter(both);
        assert(both(items.last()) ==> items.filter(both) == known.push(items.last()));
    }
}

/// Of the list of a reply the first matches are taken, as many as were asked for or as there are.
pub proof fn law_first_matches_are_listed(body: Json, n: nat, list: Vec<Json>, data: Json)
    requires
        body.field("data"@) == Some(data),
        data.field("matchList"@) == Some(Json::Array(list)),
    ensures
        listed_matches(body, n).len() <= n,
        listed_matches(body, n).len() == n || listed_matches(body, n).len() == list@.len(),
        forall|i: int|
            0 <= i < listed_matches(body, n).len() ==> #[trigger] listed_matches(body, n)[i]
                == list@[i],
        listed_matches(body, n).is_prefix_of(list@),
{
}

/// A reply without a list of matches lists none.
pub proof fn law_no_list_no_matches(body: Json, n: nat)
    requires
        !(json::inner_member(body, "data"@, "matchList"@) matches Some(Json::Array(_))),
    ensures
        listed_matches(body, n).len() == 0,
{
}

/// Every statistic is the number that the reply lists under its name.
pub proof fn law_statistics_are_those_of_the_reply(
    data: Json,
    s: DetailStats,
    n: crate::json::JsonNumber,
    t: String,
)
    requires
        stats_in(data, s),
    ensures
        data.field("avgWe"@) == Some(Json::Number(n)) ==> s.avg_we == n.double,
        data.field("pwRating"@) == Some(Json::Number(n)) ==> s.pw_rating == n.double,
        data.field("adr"@) == Some(Json::Number(n)) ==> s.adr == n.double,
        data.field("winRate"@) == Some(Json::Number(n)) ==> s.win_rate == n.double,
        data.field("kd"@) == Some(Json::Number(n)) ==> s.kd == n.double,
        data.field("headShotRatio"@) == Some(Json::Number(n)) ==> s.head_shot_ratio == n.double,
        data.field("rws"@) == Some(Json::Number(n)) ==> s.rws == n.double,
        data.field("cnt"@) == Some(Json::Number(n)) && n.unsigned is Some && n.unsigned->0
            <= u32::MAX ==> s.cnt == Some(n.unsigned->0 as u32),
        data.field("stars"@) == Some(Json::Number(n)) && n.unsigned is Some && n.unsigned->0
            <= u32::MAX ==> s.stars == Some(n.unsigned->0 as u32),
        data.field("seasonId"@) == Some(Json::Text(t)) ==> s.season_id@ == t@,
        data.field("summary"@) == Some(Json::Text(t)) ==> (s.summary matches Some(x) && x@ == t@),
        data.field("avgWe"@) is None ==> s.avg_we is None,
        data.field("pwRating"@) is None ==> s.pw_rating is None,
        data.field("adr"@) is None ==> s.adr is None,
        data.field("winRate"@) is None ==> s.win_rate is None,
        data.field("kd"@) is None ==> s.kd is None,
        data.field("headShotRatio"@) is None ==> s.head_shot_ratio is None,
        data.field("rws"@) is None ==> s.rws is None,
        data.field("cnt"@) is None ==> s.cnt is None,
        data.field("stars"@) is None ==> s.stars is None,
        data.field("seasonId"@) is None ==> s.season_id@.len() == 0,
        data.field("summary"@) is None ==> s.summary is None,
{
}

/// A refusal names its code, and what the reply says of it.
pub proof fn law_refusal_names_its_code(body: Json, n: crate::json::JsonNumber, t: String)
    requires
        body.field("statusCode"@) == Some(Json::Number(n)),
        n.signed is Some,
        body.field("errorMessage"@) == Some(Json::Text(t)),
    ensures
        stats_code(body) == n.signed->0,
        text::has_text(refusal_text(body), text::signed_decimal(n.signed->0 as int)),
        text::has_suffix(refusal_text(body), ": "@ + t@),
{
    let head = "detailStats statusCode="@;
    let code = text::signed_decimal(n.signed->0 as int);
    let all = refusal_text(body);
    assert(all.subrange(head.len() as int, (head.len() + code.len()) as int) =~= code);
    assert(text::occurs_at(all, code, head.len() as int));
    assert(all.skip(all.len() - (": "@ + t@).len()) =~= ": "@ + t@);
}

/// The account number of a text that is a number, between any white space, is that number.
pub proof fn law_account_number_is_read(n: nat, before: Seq<char>, after: Seq<char>)
    requires
        n <= 0x7FFF_FFFF_FFFF_FFFF,
        text::all_white(before),
        text::all_white(after),
    ensures
        account_number(before + text::decimal(n) + after) == n,
{
    text::law_trimming_is_blind_to_outer_space(before, text::decimal(n), after);
    text::lemma_decimal_untrimmed(n);
    text::law_decimal_round_trip(n, 0x7FFF_FFFF_FFFF_FFFF);
}

/// The requests for two accounts differ in the account alone: the same text stands before and
/// after it.
pub proof fn law_requests_differ_in_the_account(a: Seq<char>, token: Seq<char>, limit: nat, n: int)
    ensures
        search_request_view(a).body == Some(
            "{\"keyword\":"@ + json::quoted(a) + ",\"page\":1}"@,
        ),
        results_request_view(token, a, limit).body == Some(
            "{\"csgoSeasonId\":\"recent\",\"dataSource\":3,\"mySteamId\":0,\"page\":1,\"pageSize\":"@
                + text::decimal(limit) + ",\"pvpType\":-1,\"toSteamId\":"@ + json::quoted(a)
                + "}"@,
        ),
        results_request_view(token, a, limit).headers.contains(("token"@, token)),
        results_request_view(token, a, limit).url
            == "https://api.wmpvp.com/api/csgo/home/match/list"@,
        stats_request_view(token, n).body == Some(
            "{\"accessToken\":\"\",\"mySteamId\":0,\"toSteamId\":"@ + text::signed_decimal(n)
                + "}"@,
        ),
        stats_request_view(token, n).headers.contains(("token"@, token)),
        stats_request_view(token, n).url
            == "https://api.wmpvp.com/api/csgo/home/pvp/detailStats"@,
        search_request_view(a).url == "https://appengine.wmpvp.com/steamcn/app/search/user"@,
{
    let r = results_request_view(token, a, limit).headers;
    assert(r[4] == ("token"@, token));
    let h = stats_request_view(token, n).headers;
    assert(h[3] == ("token"@, token));
}

/// The request for the feed carries the account and its signature; what is signed is the account
/// with the key.
pub proof fn law_feed_request_is_signed(sid: Seq<char>, sign: Seq<char>)
    ensures
        websocket_request_view(sid, sign).url
            == "https://appactivity.wmpvp.com/steamcn/match/watchStage/getWebsocketInfo"@
            + "?steamId="@ + sid + "&platform=2&sign="@ + sign,
        signed_text(sid) == "steamId="@ + sid + "&securityKey="@ + "b2K%$5k*o^j!@Qp"@,
        websocket_request_view(sid, sign).method == Method::Get,
{
}

/// Bytes in hexadecimal take two digits each, first the high one.
pub proof fn law_hex_has_two_digits_per_byte(bytes: Seq<u8>, i: int)
    requires
        0 <= i < bytes.len(),
    ensures
        hex(bytes).len() == 2 * bytes.len(),
        digit_value(hex(bytes)[2 * i]) * 16 + digit_value(hex(bytes)[2 * i + 1]) == bytes[i],
    decreases bytes.len(),
{
    lemma_hex_len(bytes);
    lemma_hex_len(bytes.drop_last());
    if i < bytes.len() - 1 {
        law_hex_has_two_digits_per_byte(bytes.drop_last(), i);
    }
}

/// The value of a hexadecimal digit in lower case.
pub open spec fn digit_value(c: char) -> int {
    if '0' <= c <= '9' {
        c as int - '0' as int
    } else {
        c as int - 'a' as int + 10
    }
}

proof fn lemma_hex_len(bytes: Seq<u8>)
    ensures
        hex(bytes).len() == 2 * bytes.len(),
    decreases bytes.len(),
{
    if bytes.len() > 0 {
        lemma_hex_len(bytes.drop_last());
    }
}

} // verus!
