//! One connection to the platform: which frame is answered with what, and when it is given up.
//!
//! After `ping` the platform sends `pong`; from then on each answer is followed, after a pause, by
//! the next question. Messages of one kind describe a running match, those of another say that
//! there is none.

use crate::config::MonitorConfig;
use crate::connection::ConfigKey;
use crate::datalog::LogWrite;
use crate::form::FormService;
use crate::kills::{KillTracker, MatchPayload};
use crate::monitor::MatchOutcome;
use crate::rank::RankService;
use crate::state::{AppModel, AppState};
use crate::{connection, datalog, json, kills, monitor, state, text};
use vstd::prelude::*;
use vstd::string::*;

verus! {

/// After how long without anything a connection is given up, in milliseconds.
pub const STALL_TIMEOUT_MS: u64 = 60_000;

/// The kind of the questions.
pub const POLL_KIND: i64 = 10001;

/// The kind of the messages of a running match.
pub const MATCH_KIND: i64 = 10002;

/// The kind of the messages without a match.
pub const IDLE_KIND: i64 = 10003;

/// The first text on a connection.
pub const HELLO: &'static str = "ping";

/// The line in the data log once a connection stands.
pub const CONNECTED: &'static str = "[WS] connected";

/// The question for the match of an account.
pub open spec fn question(steam_id: Seq<char>) -> Seq<char> {
    "{\"messageData\":{\"steam_id\":"@ + json::quoted(steam_id) + "},\"messageType\":10001}"@
}

/// Writes the question for the match of an account.
pub fn poll_message(steam_id: &str) -> (r: String)
    ensures
        r@ == question(steam_id@),
{
    let mut out = "{\"messageData\":{\"steam_id\":".to_owned();
    out.append(json::quote(steam_id).as_str());
    out.append("},\"messageType\":10001}");
    out
}

/// A message of the platform. The payload is there where a message of a match could be read.
pub struct WsEnvelope {
    pub message_type: i64,
    pub payload: Option<MatchPayload>,
}

/// What to do on a connection.
pub enum Reply {
    Nothing,
    Send(String),
    /// Send the bytes of the ping back.
    Pong,
    /// Give the connection up, for a reason.
    End(String),
}

/// What to do on a connection, by characters.
pub enum ReplyView {
    Nothing,
    Send(Seq<char>),
    Pong,
    End(Seq<char>),
}

impl View for Reply {
    type V = ReplyView;

    open spec fn view(&self) -> ReplyView {
        match self {
            Reply::Nothing => ReplyView::Nothing,
            Reply::Send(s) => ReplyView::Send(s@),
            Reply::Pong => ReplyView::Pong,
            Reply::End(s) => ReplyView::End(s@),
        }
    }
}

/// What came, other than text.
pub enum Frame {
    Ping,
    Other,
    Failed(String),
    Closed,
}

/// What a frame other than text is answered with.
pub open spec fn answer_to(frame: Frame) -> ReplyView {
    match frame {
        Frame::Ping => ReplyView::Pong,
        Frame::Other => ReplyView::Nothing,
        Frame::Failed(e) => ReplyView::End("WS 读取错误: "@ + e@),
        Frame::Closed => ReplyView::End("WS 连接关闭"@),
    }
}

/// Answers a frame other than text.
pub fn on_frame(frame: Frame) -> (r: Reply)
    ensures
        r@ == answer_to(frame),
{
    match frame {
        Frame::Ping => Reply::Pong,
        Frame::Other => Reply::Nothing,
        Frame::Failed(e) => {
            let mut s = "WS 读取错误: ".to_owned();
            s.append(e.as_str());
            Reply::End(s)
        },
        Frame::Closed => Reply::End("WS 连接关闭".to_owned()),
    }
}

/// Gives a connection up on which nothing came.
pub fn on_stall() -> (r: Reply)
    ensures
        r@ == ReplyView::End("WS 无响应超过 60s"@),
{
    Reply::End("WS 无响应超过 60s".to_owned())
}

/// The reason for which a connection is given up when the configuration changes.
pub const CONFIG_CHANGED: &'static str = "监控配置已变化, 重建会话";

/// A connection.
pub struct Session {
    pub steam_id: String,
    pub key: ConfigKey,
    /// The card has been told whether a match is played.
    pub notified: bool,
    /// The next question waits for its time.
    pub poll_due: bool,
    pub tracker: KillTracker,
}

/// What a text brought, besides the answer to it.
pub struct TextOutcome {
    pub reply: Reply,
    pub log: Option<LogWrite>,
    /// The time of the next question starts anew.
    pub schedule: bool,
    pub matched: Option<MatchOutcome>,
    /// A match that was shown is over.
    pub ended: bool,
}

/// What is put on the card with the first message that tells whether a match is played.
pub open spec fn told(app: AppModel, notified: bool, kind: i64) -> AppModel {
    if notified {
        app
    } else {
        AppModel {
            my: monitor::with_status(
                app.my,
                if kind == MATCH_KIND {
                    "in-match"@
                } else {
                    "idle"@
                },
                Seq::empty(),
            ),
            ..app
        }
    }
}

/// The name under which the messages of a kind are kept apart in the data log.
pub open spec fn log_key(kind: i64) -> Seq<char> {
    "ws"@ + text::signed_decimal(kind as int)
}

/// A message as the data log holds it.
pub open spec fn log_body(kind: i64, message: Seq<char>) -> Seq<char> {
    "[WS] type="@ + text::signed_decimal(kind as int) + " data="@ + message
}

/// Messages of this kind go to the data log.
pub open spec fn is_logged(kind: i64) -> bool {
    POLL_KIND <= kind <= IDLE_KIND
}

/// What the program knows once a message went to the data log.
pub open spec fn logged(app: AppModel, kind: i64, message: Seq<char>) -> AppModel {
    if is_logged(kind) {
        AppModel {
            datalog: app.datalog.told(log_key(kind), log_body(kind, message)),
            ..app
        }
    } else {
        app
    }
}

/// A message tells whether a match is played.
pub open spec fn is_answer(kind: i64) -> bool {
    kind == MATCH_KIND || kind == IDLE_KIND
}

/// What the program knows before the payload of a message is taken in.
pub open spec fn prepared(app: AppModel, notified: bool, kind: i64, message: Seq<char>) -> AppModel {
    let app = logged(app, kind, message);
    if is_answer(kind) {
        told(app, notified, kind)
    } else {
        app
    }
}

impl Session {
    /// A connection for an account.
    pub fn new(steam_id: String, key: ConfigKey) -> (r: Session)
        ensures
            r.steam_id == steam_id,
            r.key == key,
            !r.notified,
            !r.poll_due,
            r.tracker.prev is None,
    {
        Session { steam_id, key, notified: false, poll_due: false, tracker: KillTracker::new() }
    }

    /// What is asked of the payload of a message: the kills in it can be told.
    pub open spec fn can_take(self, app: AppModel, ranks: crate::rank::RankModel, env: WsEnvelope) -> bool {
        env.message_type == MATCH_KIND ==> (env.payload matches Some(p)
            ==> monitor::match_id_of(p).len() > 0 ==> kills::news_can_be_named(
            p,
            monitor::table_before(app, p, self.tracker.prev),
            ranks,
        ))
    }

    /// Answers a text. `env` is what the text was read as; none where it is no message.
    pub fn on_text(
        &mut self,
        message: &str,
        env: Option<WsEnvelope>,
        app: &mut AppState,
        ranks: &mut RankService,
        forms: &mut FormService,
        stamp: &str,
        now_ms: u64,
        now: u64,
    ) -> (r: TextOutcome)
        requires
            message@ != "pong"@ ==> (env matches Some(e) ==> old(self).can_take(
                old(app)@,
                old(ranks)@,
                e,
            )),
        ensures
            final(self).steam_id == old(self).steam_id,
            final(self).key == old(self).key,
            final(app).plugins == old(app).plugins,
            r.reply@ == (if message@ == "pong"@ {
                ReplyView::Send(question(old(self).steam_id@))
            } else {
                ReplyView::Nothing
            }),
            // What is no message changes nothing.
            message@ == "pong"@ || env is None ==> {
                &&& r.log is None && !r.schedule && r.matched is None && !r.ended
                &&& *final(self) == *old(self)
                &&& *final(app) == *old(app)
                &&& *final(ranks) == *old(ranks)
                &&& *final(forms) == *old(forms)
            },
            message@ != "pong"@ ==> (env matches Some(e) ==> {
                let kind = e.message_type;
                let before = prepared(old(app)@, old(self).notified, kind, message@);
                &&& match r.log {
                    Some(w) => is_logged(kind) && old(app)@.datalog.is_news(
                        log_key(kind),
                        log_body(kind, message@),
                    ) && w.line@ == datalog::log_line(stamp@, log_body(kind, message@))
                        && w.check_size == (final(app)@.datalog.writes % datalog::CHECK_EVERY
                        == 0),
                    None => !is_logged(kind) || !old(app)@.datalog.is_news(
                        log_key(kind),
                        log_body(kind, message@),
                    ),
                }
                &&& r.schedule == is_answer(kind)
                &&& final(self).poll_due == (old(self).poll_due || is_answer(kind))
                &&& final(self).notified == (old(self).notified || is_answer(kind))
                // A match.
                &&& kind == MATCH_KIND ==> !r.ended && match e.payload {
                    Some(p) => r.matched is Some <==> monitor::match_id_of(p).len() > 0,
                    None => r.matched is None,
                }
                &&& r.matched is Some ==> kind == MATCH_KIND
                &&& r.matched is Some ==> {
                    let p = e.payload->0;
                    let out = r.matched->0;
                    let list = monitor::players_in(p.players@);
                    let prev = monitor::table_before(old(app)@, p, old(self).tracker.prev);
                    let base = monitor::ranks_at_start(old(app)@, p, old(ranks)@);
                    &&& out.is_new == monitor::is_new_match(old(app)@, p)
                    &&& text::texts(out.rank_queue@) == monitor::rank_lookups(base, list)
                    &&& text::texts(out.form_queue@) == state::lookups(old(forms)@, list, now)
                    &&& kills::note_views(out.kills@) == kills::notes_of(
                        p,
                        prev,
                        old(ranks)@,
                        old(self).steam_id@,
                    )
                    &&& final(app)@ == monitor::app_after(before, p, old(ranks)@, now_ms)
                    &&& final(ranks)@ == monitor::ranks_asked(base, list)
                    &&& final(forms)@ == state::asked_all(old(forms)@, list, now)
                    &&& final(self).tracker.prev == kills::table_after(p, prev)
                }
                // No match.
                &&& kind == IDLE_KIND ==> {
                    &&& r.ended == (old(app)@.match_state is Some)
                    &&& final(self).tracker.prev is None
                    &&& final(app)@ == (AppModel {
                        match_state: None,
                        updated_at: now_ms,
                        ..before
                    })
                }
                &&& r.matched is None ==> *final(ranks) == *old(ranks) && *final(forms) == *old(
                    forms,
                )
                &&& r.matched is None && kind != IDLE_KIND ==> final(app)@ == before
                    && final(self).tracker == old(self).tracker && !r.ended
            }),
    {
        if text::same(message, "pong") {
            return TextOutcome {
                reply: Reply::Send(poll_message(self.steam_id.as_str())),
                log: None,
                schedule: false,
                matched: None,
                ended: false,
            };
        }
        let e = match env {
            Some(e) => e,
            None => {
                return TextOutcome {
                    reply: Reply::Nothing,
                    log: None,
                    schedule: false,
                    matched: None,
                    ended: false,
                };
            },
        };
        let kind: i64 = e.message_type;
        let mut log: Option<LogWrite> = None;
        if POLL_KIND <= kind && kind <= IDLE_KIND {
            let number = text::signed_decimal_text(kind);
            let mut name = "ws".to_owned();
            name.append(number.as_str());
            let mut body = "[WS] type=".to_owned();
            body.append(number.as_str());
            body.append(" data=");
            body.append(message);
            log = app.datalog.line(name.as_str(), stamp, body.as_str());
        }
        let none = String::new();
        let mut matched: Option<MatchOutcome> = None;
        let mut ended = false;
        if kind == MATCH_KIND {
            if !self.notified {
                monitor::set_status(&mut app.my, "in-match", none.as_str());
                self.notified = true;
            }
            match e.payload {
                Some(p) => {
                    matched = monitor::handle_match_payload(
                        app,
                        ranks,
                        forms,
                        &mut self.tracker,
                        self.steam_id.as_str(),
                        p,
                        now_ms,
                        now,
                    );
                },
                None => {},
            }
        } else if kind == IDLE_KIND {
            if !self.notified {
                monitor::set_status(&mut app.my, "idle", none.as_str());
                self.notified = true;
            }
            ended = app.match_state.is_some();
            app.match_state = None;
            self.tracker.reset();
            app.updated_at = now_ms;
        }
        let schedule = kind == MATCH_KIND || kind == IDLE_KIND;
        if schedule {
            self.poll_due = true;
        }
        TextOutcome { reply: Reply::Nothing, log, schedule, matched, ended }
    }

    /// The time of the next question has come.
    pub fn on_poll_due(&mut self) -> (r: Reply)
        ensures
            r@ == ReplyView::Send(question(old(self).steam_id@)),
            !final(self).poll_due,
            final(self).steam_id == old(self).steam_id,
            final(self).key == old(self).key,
            final(self).notified == old(self).notified,
            final(self).tracker == old(self).tracker,
    {
        self.poll_due = false;
        Reply::Send(poll_message(self.steam_id.as_str()))
    }

    /// The configuration was saved: the connection is given up where it depends on what changed.
    pub fn on_config(&self, cfg: &MonitorConfig) -> (r: Reply)
        ensures
            r@ == (if connection::key_in(cfg@) == self.key@ {
                ReplyView::Nothing
            } else {
                ReplyView::End(CONFIG_CHANGED@)
            }),
    {
        if connection::config_key(cfg).same(&self.key) {
            Reply::Nothing
        } else {
            Reply::End(CONFIG_CHANGED.to_owned())
        }
    }

    /// Whether the kills in a message can be told.
    pub fn takes(&self, app: &AppState, ranks: &RankService, env: &WsEnvelope) -> (r: bool)
        ensures
            r == self.can_take(app@, ranks@, *env),
    {
        if env.message_type != MATCH_KIND {
            return true;
        }
        match &env.payload {
            Some(p) => monitor::can_handle(app, ranks, &self.tracker, p),
            None => true,
        }
    }
}

/// A connection that is given up for a change of the configuration is made again at once; one
/// that was closed, or on which nothing came, is not.
pub proof fn law_config_change_restarts()
    ensures
        connection::is_config_change(Some(CONFIG_CHANGED@)),
        !connection::is_config_change(Some("WS 连接关闭"@)),
        !connection::is_config_change(Some("WS 无响应超过 60s"@)),
{
    reveal_strlit("监控配置已变化, 重建会话");
    reveal_strlit("配置已变化");
    reveal_strlit("WS 连接关闭");
    reveal_strlit("WS 无响应超过 60s");
    assert(CONFIG_CHANGED@.subrange(2, 7) =~= connection::CONFIG_CHANGED@);
    assert(text::occurs_at(CONFIG_CHANGED@, connection::CONFIG_CHANGED@, 2));
    let p = connection::CONFIG_CHANGED@;
    assert forall|i: int| !text::occurs_at("WS 连接关闭"@, p, i) by {
        if text::occurs_at("WS 连接关闭"@, p, i) {
            assert("WS 连接关闭"@.subrange(i, i + p.len())[0] == p[0]);
        }
    }
    assert forall|i: int| !text::occurs_at("WS 无响应超过 60s"@, p, i) by {
        if text::occurs_at("WS 无响应超过 60s"@, p, i) {
            assert("WS 无响应超过 60s"@.subrange(i, i + p.len())[0] == p[0]);
        }
    }
}

/// The question names an ordinary id plainly.
pub proof fn law_question_of_plain_id(steam_id: Seq<char>)
    requires
        json::needs_no_escape(steam_id),
    ensures
        question(steam_id) == "{\"messageData\":{\"steam_id\":"@ + ("\""@ + steam_id + "\""@)
            + "},\"messageType\":10001}"@,
{
    reveal_strlit("\"");
    assert("\""@ =~= seq!['"']);
    json::law_plain_text_stays(steam_id);
}

/// The first message that tells whether a match is played puts that on the card, and no later one
/// on the same connection does; a message of another kind tells nothing of it.
pub proof fn law_first_answer_tells_the_status(
    app: AppModel,
    notified: bool,
    kind: i64,
    message: Seq<char>,
)
    ensures
        ({
            let after = prepared(app, notified, kind, message);
            &&& !notified && kind == 10002 ==> after.my.ws_status == "in-match"@
            &&& !notified && kind == 10003 ==> after.my.ws_status == "idle"@
            &&& notified || (kind != 10002 && kind != 10003) ==> after.my == app.my
            &&& after.my.last_error == app.my.last_error
            &&& after.my.nickname == app.my.nickname
            &&& after.my.steam_id == app.my.steam_id
            &&& after.my.rank_label == app.my.rank_label
            &&& after.my.rank_score == app.my.rank_score
            &&& after.my.stats == app.my.stats
            &&& after.match_state == app.match_state
            &&& after.updated_at == app.updated_at
            &&& after.avatar == app.avatar
            &&& after.plugins == app.plugins
            &&& after.cfg_epoch == app.cfg_epoch
            &&& after.board_showing == app.board_showing
        }),
{
}

/// Messages of a match and messages without one are answers; those and the questions go to the
/// data log, each kind under its own name, with the message as it came.
pub proof fn law_messages_are_logged_by_kind(
    app: AppModel,
    notified: bool,
    kind: i64,
    other: i64,
    message: Seq<char>,
)
    ensures
        is_answer(kind) <==> kind == 10002 || kind == 10003,
        is_logged(kind) <==> kind == 10001 || kind == 10002 || kind == 10003,
        is_logged(kind) ==> prepared(app, notified, kind, message).datalog == app.datalog.told(
            log_key(kind),
            log_body(kind, message),
        ),
        !is_logged(kind) ==> prepared(app, notified, kind, message).datalog == app.datalog,
        text::has_suffix(log_body(kind, message), " data="@ + message),
        0 <= kind && 0 <= other && kind != other ==> log_key(kind) != log_key(other),
{
    let all = log_body(kind, message);
    let tail = " data="@ + message;
    assert(all.skip(all.len() - tail.len()) =~= tail);
    if 0 <= kind && 0 <= other && log_key(kind) == log_key(other) {
        let n = "ws"@.len() as int;
        assert(log_key(kind).skip(n) =~= text::decimal(kind as nat));
        assert(log_key(other).skip(n) =~= text::decimal(other as nat));
        text::law_decimal_round_trip(kind as nat, 0x7FFF_FFFF_FFFF_FFFF);
        text::law_decimal_round_trip(other as nat, 0x7FFF_FFFF_FFFF_FFFF);
    }
}

/// A ping is answered by a pong; a failure and a close end the connection, a failure with what is
/// known of it.
pub proof fn law_frames_are_answered(e: String)
    ensures
        answer_to(Frame::Ping) == ReplyView::Pong,
        answer_to(Frame::Other) == ReplyView::Nothing,
        answer_to(Frame::Closed) is End,
        answer_to(Frame::Failed(e)) matches ReplyView::End(reason) && text::has_suffix(reason, e@),
{
    let reason = "WS 读取错误: "@ + e@;
    assert(reason.skip(reason.len() - e@.len()) =~= e@);
}

/// Every message can be taken that is not about a match, and every one whose kills can be told.
pub proof fn law_ordinary_messages_can_be_taken(
    s: Session,
    app: AppModel,
    ranks: crate::rank::RankModel,
    env: WsEnvelope,
)
    ensures
        env.message_type != 10002 || env.payload is None ==> s.can_take(app, ranks, env),
        env.payload matches Some(p) ==> (monitor::is_new_match(app, p) ==> s.can_take(
            app,
            ranks,
            env,
        )),
        env.payload matches Some(p) ==> (kills::news_can_be_named(p, s.tracker.prev, ranks)
            && !monitor::is_new_match(app, p) ==> s.can_take(app, ranks, env)),
{
}

/// A connection starts with `ping`, every question is for the account, and the connection is given
/// up after a minute without anything.
pub proof fn law_connection_starts_with_ping()
    ensures
        HELLO@ == "ping"@,
        forall|id: Seq<char>| #[trigger]
            question(id) == "{\"messageData\":{\"steam_id\":"@ + json::quoted(id)
                + "},\"messageType\":10001}"@,
        STALL_TIMEOUT_MS == 60 * 1000,
        CONNECTED@ == "[WS] connected"@,
{
}

} // verus!
